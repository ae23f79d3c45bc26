//! The ELF64 reader: typed records and bounds-checked accessors over an
//! immutable byte buffer.
//!
//! See <https://man7.org/linux/man-pages/man5/elf.5.html>

use vstd::prelude::*;
use crate::consts as c;
use crate::{Addr, Offset};

verus! {

/// Where inside the file a bounds check failed; carried by the bounds errors
/// so a diagnostic can name the failing region.
#[derive(Debug, Clone, Copy, PartialEq, Eq, Structural)]
pub enum Region {
    Header,
    ProgramHeaderOffset,
    ProgramHeaders,
    SectionHeaderOffset,
    SectionHeaders,
    SectionNumber,
    SectionOffset,
    SectionSize,
    StringOffset,
    Symbols,
    SymbolIndex,
    Relocations,
    DynEntries,
    DynStringTable,
    DynStringTableSize,
    DynContentOffset,
    DynSymbols,
}

/// Which kind of named entity a by-name lookup failed to find.
#[derive(Debug, Clone, Copy, PartialEq, Eq, Structural)]
pub enum NameKind {
    Section,
    Symbol,
}

#[derive(Debug, Clone, PartialEq, Eq)]
pub enum ElfReadError {
    /// The file is too small for the header.
    FileTooSmall,
    /// A region of the file is smaller than the records it should hold.
    RegionOutOfBounds { expected: u64, found: u64, region: Region },
    /// The first four bytes are not the ELF signature.
    WrongMagic(Magic),
    /// A program header entry has a different size than the fixed layout.
    InvalidPhEntSize { expected: u64, found: u64 },
    /// A section header entry has a different size than the fixed layout.
    InvalidShEntSize { expected: u64, found: u64 },
    /// The section name string table section is marked as UNDEF or reserved.
    StrTableSectionNotPresent,
    /// An index into a table or the buffer is out of bounds.
    IndexOutOfBounds { region: Region, index: u64 },
    /// A string in a string table does not end with a nul terminator.
    NoStringNulTerm(u64),
    /// No section of the requested type exists.
    SectionTypeNotFound(c::ShType),
    /// No section or symbol with the requested name exists.
    NotFoundByName { kind: NameKind, name: Vec<u8> },
    /// No dynamic entry with the requested tag exists.
    DynEntryNotFound(c::DynamicTag),
}

pub type ReadResult<T> = Result<T, ElfReadError>;

/// The four identification bytes that open every ELF file.
#[derive(Debug, Clone, Copy, PartialEq, Eq, Structural)]
pub struct Magic(pub u8, pub u8, pub u8, pub u8);

/// An index into the section name string table.
#[derive(Debug, Clone, Copy, PartialEq, Eq, Structural, Hash)]
pub struct ShStringIdx(pub u32);

/// An index into the symbol string table.
#[derive(Debug, Clone, Copy, PartialEq, Eq, Structural, Hash)]
pub struct StringIdx(pub u32);

/// An index into the symbol table.
#[derive(Debug, Clone, Copy, PartialEq, Eq, Structural, Hash)]
pub struct SymIdx(pub u32);

#[derive(Debug, Clone, Copy, PartialEq, Eq)]
pub struct ElfHeader {
    pub ident: ElfIdent,
    pub ty: c::Type,
    pub machine: c::Machine,
    pub version: u32,
    pub entry: Addr,
    pub phoff: Offset,
    pub shoff: Offset,
    pub flags: u32,
    pub ehsize: u16,
    pub phentsize: u16,
    pub phnum: u16,
    pub shentsize: u16,
    pub shnum: u16,
    pub shstrndex: c::SectionIdx,
}

#[derive(Debug, Clone, Copy, PartialEq, Eq)]
pub struct ElfIdent {
    pub magic: Magic,
    pub class: c::Class,
    pub data: c::Data,
    pub version: u8,
    pub osabi: c::OsAbi,
    pub abiversion: u8,
    pub pad: (u8, u8, u8, u8, u8, u8, u8),
}

#[derive(Debug, Clone, Copy, PartialEq, Eq)]
pub struct Phdr {
    pub ty: c::PhType,
    pub flags: c::PhFlags,
    pub offset: Offset,
    pub vaddr: Addr,
    pub paddr: Addr,
    pub filesz: u64,
    pub memsz: u64,
    pub align: u64,
}

#[derive(Debug, Clone, Copy, PartialEq, Eq)]
pub struct Shdr {
    pub name: ShStringIdx,
    pub ty: c::ShType,
    pub flags: c::ShFlags,
    pub addr: Addr,
    pub offset: Offset,
    pub size: u64,
    pub link: u32,
    pub info: u32,
    pub addralign: u64,
    pub entsize: u64,
}

#[derive(Debug, Clone, Copy, PartialEq, Eq)]
pub struct Sym {
    pub name: StringIdx,
    pub info: SymInfo,
    pub other: c::SymbolVisibility,
    pub shndx: c::SectionIdx,
    pub value: Addr,
    pub size: u64,
}

/// The combined type-and-binding byte of a symbol.
#[derive(Debug, Clone, Copy, PartialEq, Eq, Structural)]
pub struct SymInfo(pub u8);

impl SymInfo {
    pub fn ty(self) -> (r: c::SymbolType)
        ensures
            r == c::SymbolType(self.0 & 0xf),
    {
        c::SymbolType(self.0 & 0xf)
    }

    pub fn binding(self) -> (r: c::SymbolBinding)
        ensures
            r == c::SymbolBinding(self.0 >> 4),
    {
        c::SymbolBinding(self.0 >> 4)
    }
}

#[derive(Debug, Clone, Copy, PartialEq, Eq)]
pub struct Rel {
    pub offset: Addr,
    pub info: RelInfo,
}

#[derive(Debug, Clone, Copy, PartialEq, Eq)]
pub struct Rela {
    pub offset: Addr,
    pub info: RelInfo,
    pub addend: i64,
}

/// The packed symbol-index and relocation-type field of a relocation.
#[derive(Debug, Clone, Copy, PartialEq, Eq, Structural)]
pub struct RelInfo(pub u64);

impl RelInfo {
    pub fn sym(&self) -> (r: SymIdx)
        ensures
            r == SymIdx((self.0 >> 32) as u32),
    {
        SymIdx((self.0 >> 32) as u32)
    }

    pub fn ty(&self) -> (r: u32)
        ensures
            r == (self.0 & 0xffff_ffff) as u32,
    {
        (self.0 & 0xffff_ffff) as u32
    }
}

#[derive(Debug, Clone, Copy, PartialEq, Eq)]
pub struct Dyn {
    pub tag: c::DynamicTag,
    pub val: u64,
}

/// A zero-copy view over one ELF file's bytes.
#[derive(Debug, Clone, Copy)]
pub struct ElfReader<'a> {
    pub data: &'a [u8],
}


// ------------------
// Specification of the accessors
// ------------------

/// The spec-level outcome of an accessor whose failure can carry a looked-up
/// name: it finds its target, fails with a propagated error, or misses a
/// name (the error then reports that name, which only executable code can
/// package into the error value).
pub enum ScanOutcome<T> {
    Found(T),
    Failed(ElfReadError),
    Missing(NameKind, Seq<u8>),
}

/// The bytes of the section name ".strtab".
pub open spec fn spec_strtab_name() -> Seq<u8> {
    seq![0x2eu8, 0x73u8, 0x74u8, 0x72u8, 0x74u8, 0x61u8, 0x62u8]
}

/// The bytes of the section name ".dynamic".
pub open spec fn spec_dynamic_name() -> Seq<u8> {
    seq![0x2eu8, 0x64u8, 0x79u8, 0x6eu8, 0x61u8, 0x6du8, 0x69u8, 0x63u8]
}

pub fn strtab_name() -> (r: Vec<u8>)
    ensures
        r@ == spec_strtab_name(),
{
    let mut v: Vec<u8> = Vec::new();
    v.push(0x2e);
    v.push(0x73);
    v.push(0x74);
    v.push(0x72);
    v.push(0x74);
    v.push(0x61);
    v.push(0x62);
    proof {
        assert(v@ =~= spec_strtab_name());
    }
    v
}

pub fn dynamic_name() -> (r: Vec<u8>)
    ensures
        r@ == spec_dynamic_name(),
{
    let mut v: Vec<u8> = Vec::new();
    v.push(0x2e);
    v.push(0x64);
    v.push(0x79);
    v.push(0x6e);
    v.push(0x61);
    v.push(0x6d);
    v.push(0x69);
    v.push(0x63);
    proof {
        assert(v@ =~= spec_dynamic_name());
    }
    v
}

/// True when the first four bytes are the ELF signature.
pub open spec fn spec_magic_ok(d: Seq<u8>) -> bool {
    d.len() >= 4 && d[0] == 0x7fu8 && d[1] == 0x45u8 && d[2] == 0x4cu8 && d[3] == 0x46u8
}

/// A buffer a reader accepts: room for the header and the right signature.
pub open spec fn spec_reader_ok(d: Seq<u8>) -> bool {
    d.len() >= 64 && spec_magic_ok(d)
}

/// What `header` returns on a buffer with these bytes.
pub open spec fn spec_header(d: Seq<u8>) -> ReadResult<ElfHeader> {
    if d.len() >= 64 {
        Ok(crate::codec::spec_parse_header(d.subrange(0, 64)))
    } else {
        Err(ElfReadError::RegionOutOfBounds {
            expected: 64,
            found: d.len() as u64,
            region: Region::Header,
        })
    }
}

pub open spec fn spec_phdr_at(d: Seq<u8>, off: int) -> Phdr {
    crate::codec::spec_parse_phdr(d.subrange(off, off + 56))
}

pub open spec fn spec_shdr_at(d: Seq<u8>, off: int) -> Shdr {
    crate::codec::spec_parse_shdr(d.subrange(off, off + 64))
}

pub open spec fn spec_sym_at(d: Seq<u8>, off: int) -> Sym {
    crate::codec::spec_parse_sym(d.subrange(off, off + 24))
}

/// What `program_headers` returns on a buffer with these bytes.
pub open spec fn spec_program_headers(d: Seq<u8>) -> ReadResult<Seq<Phdr>> {
    match spec_header(d) {
        Err(e) => Err(e),
        Ok(h) => if h.phnum == 0 {
            Ok(Seq::empty())
        } else if h.phentsize != 56 {
            Err(ElfReadError::InvalidPhEntSize { expected: 56, found: h.phentsize as u64 })
        } else if h.phoff.0 > d.len() {
            Err(ElfReadError::IndexOutOfBounds {
                region: Region::ProgramHeaderOffset,
                index: h.phoff.0,
            })
        } else if d.len() - h.phoff.0 < 56 * h.phnum {
            Err(ElfReadError::RegionOutOfBounds {
                expected: (56 * h.phnum) as u64,
                found: (d.len() - h.phoff.0) as u64,
                region: Region::ProgramHeaders,
            })
        } else {
            Ok(Seq::new(h.phnum as nat, |i: int| spec_phdr_at(d, h.phoff.0 + 56 * i)))
        },
    }
}

/// What `section_headers` returns on a buffer with these bytes.
pub open spec fn spec_section_headers(d: Seq<u8>) -> ReadResult<Seq<Shdr>> {
    match spec_header(d) {
        Err(e) => Err(e),
        Ok(h) => if h.shnum == 0 {
            Ok(Seq::empty())
        } else if h.shentsize != 64 {
            Err(ElfReadError::InvalidShEntSize { expected: 64, found: h.shentsize as u64 })
        } else if h.shoff.0 > d.len() {
            Err(ElfReadError::IndexOutOfBounds {
                region: Region::SectionHeaderOffset,
                index: h.shoff.0,
            })
        } else if d.len() - h.shoff.0 < 64 * h.shnum {
            Err(ElfReadError::RegionOutOfBounds {
                expected: (64 * h.shnum) as u64,
                found: (d.len() - h.shoff.0) as u64,
                region: Region::SectionHeaders,
            })
        } else {
            Ok(Seq::new(h.shnum as nat, |i: int| spec_shdr_at(d, h.shoff.0 + 64 * i)))
        },
    }
}

/// What `section_header` returns for this section ordinal.
pub open spec fn spec_section_header(d: Seq<u8>, idx: c::SectionIdx) -> ReadResult<Shdr> {
    match spec_section_headers(d) {
        Err(e) => Err(e),
        Ok(shs) => if idx.0 < shs.len() {
            Ok(shs[idx.0 as int])
        } else {
            Err(ElfReadError::IndexOutOfBounds {
                region: Region::SectionNumber,
                index: idx.0 as u64,
            })
        },
    }
}

/// What `section_content` returns for this section header: no-bits sections
/// have no file representation, every other section is the exact byte range
/// `[offset, offset + size)`.
pub open spec fn spec_section_content(d: Seq<u8>, sh: Shdr) -> ReadResult<Seq<u8>> {
    if sh.ty.0 == c::SHT_NOBITS {
        Ok(Seq::empty())
    } else if sh.offset.0 > d.len() {
        Err(ElfReadError::IndexOutOfBounds { region: Region::SectionOffset, index: sh.offset.0 })
    } else if sh.size > d.len() - sh.offset.0 {
        Err(ElfReadError::IndexOutOfBounds { region: Region::SectionSize, index: sh.size })
    } else {
        Ok(d.subrange(sh.offset.0 as int, sh.offset.0 + sh.size))
    }
}

/// What `sh_str_table` returns: the content of the section named by the
/// header's section name table ordinal; UNDEF and the reserved ordinals are
/// rejected.
pub open spec fn spec_sh_str_table(d: Seq<u8>) -> ReadResult<Seq<u8>> {
    match spec_header(d) {
        Err(e) => Err(e),
        Ok(h) => if h.shstrndex.0 == c::SHN_UNDEF || h.shstrndex.0 >= c::SHN_LORESERVE {
            Err(ElfReadError::StrTableSectionNotPresent)
        } else {
            match spec_section_header(d, h.shstrndex) {
                Err(e) => Err(e),
                Ok(sh) => spec_section_content(d, sh),
            }
        },
    }
}

/// The least index `j >= i` with `tab[j] == 0`, if any.
pub open spec fn spec_find_nul(tab: Seq<u8>, i: int) -> Option<int>
    decreases tab.len() - i,
{
    if i < 0 || i >= tab.len() {
        None
    } else if tab[i] == 0 {
        Some(i)
    } else {
        spec_find_nul(tab, i + 1)
    }
}

/// The nul-terminated string starting at `idx` inside a string table.
pub open spec fn spec_string_at(tab: Seq<u8>, idx: u32) -> ReadResult<Seq<u8>> {
    if idx > tab.len() {
        Err(ElfReadError::IndexOutOfBounds { region: Region::StringOffset, index: idx as u64 })
    } else {
        match spec_find_nul(tab, idx as int) {
            None => Err(ElfReadError::NoStringNulTerm(idx as u64)),
            Some(end) => Ok(tab.subrange(idx as int, end)),
        }
    }
}

/// What `sh_string` returns for this section name index.
pub open spec fn spec_sh_string(d: Seq<u8>, idx: ShStringIdx) -> ReadResult<Seq<u8>> {
    match spec_sh_str_table(d) {
        Err(e) => Err(e),
        Ok(tab) => spec_string_at(tab, idx.0),
    }
}

/// The scan `section_header_by_name` performs from entry `i` on: resolve
/// each section's name in turn and return the first section whose name is
/// `name`; a name that fails to resolve fails the whole scan.
pub open spec fn spec_scan_section(d: Seq<u8>, shs: Seq<Shdr>, name: Seq<u8>, i: int) -> ScanOutcome<
    Shdr,
>
    decreases shs.len() - i,
{
    if i < 0 || i >= shs.len() {
        ScanOutcome::Missing(NameKind::Section, name)
    } else {
        match spec_sh_string(d, shs[i].name) {
            Err(e) => ScanOutcome::Failed(e),
            Ok(s) => if s == name {
                ScanOutcome::Found(shs[i])
            } else {
                spec_scan_section(d, shs, name, i + 1)
            },
        }
    }
}

/// What `section_header_by_name` returns for this name.
pub open spec fn spec_section_header_by_name(d: Seq<u8>, name: Seq<u8>) -> ScanOutcome<Shdr> {
    match spec_section_headers(d) {
        Err(e) => ScanOutcome::Failed(e),
        Ok(shs) => spec_scan_section(d, shs, name, 0),
    }
}

/// The first section of the given type, in table order.
pub open spec fn spec_scan_section_ty(shs: Seq<Shdr>, ty: u32, i: int) -> Option<Shdr>
    decreases shs.len() - i,
{
    if i < 0 || i >= shs.len() {
        None
    } else if shs[i].ty.0 == ty {
        Some(shs[i])
    } else {
        spec_scan_section_ty(shs, ty, i + 1)
    }
}

/// What `section_header_by_type` returns for this type value.
pub open spec fn spec_section_header_by_type(d: Seq<u8>, ty: u32) -> ReadResult<Shdr> {
    match spec_section_headers(d) {
        Err(e) => Err(e),
        Ok(shs) => match spec_scan_section_ty(shs, ty, 0) {
            Some(sh) => Ok(sh),
            None => Err(ElfReadError::SectionTypeNotFound(c::ShType(ty))),
        },
    }
}

/// What `str_table` returns: the content of the section named ".strtab".
pub open spec fn spec_str_table(d: Seq<u8>) -> ScanOutcome<Seq<u8>> {
    match spec_section_header_by_name(d, spec_strtab_name()) {
        ScanOutcome::Failed(e) => ScanOutcome::Failed(e),
        ScanOutcome::Missing(k, n) => ScanOutcome::Missing(k, n),
        ScanOutcome::Found(sh) => match spec_section_content(d, sh) {
            Err(e) => ScanOutcome::Failed(e),
            Ok(tab) => ScanOutcome::Found(tab),
        },
    }
}

/// What `string` returns for this symbol name index.
pub open spec fn spec_string(d: Seq<u8>, idx: StringIdx) -> ScanOutcome<Seq<u8>> {
    match spec_str_table(d) {
        ScanOutcome::Failed(e) => ScanOutcome::Failed(e),
        ScanOutcome::Missing(k, n) => ScanOutcome::Missing(k, n),
        ScanOutcome::Found(tab) => match spec_string_at(tab, idx.0) {
            Err(e) => ScanOutcome::Failed(e),
            Ok(s) => ScanOutcome::Found(s),
        },
    }
}

/// What `symbols` returns: the content of the one symbol-table section,
/// reinterpreted as however many whole records fit.
pub open spec fn spec_symbols(d: Seq<u8>) -> ReadResult<Seq<Sym>> {
    match spec_section_header_by_type(d, c::SHT_SYMTAB) {
        Err(e) => Err(e),
        Ok(sh) => match spec_section_content(d, sh) {
            Err(e) => Err(e),
            Ok(content) => Ok(
                Seq::new((content.len() / 24) as nat, |i: int| crate::codec::spec_parse_sym(
                    content.subrange(24 * i, 24 * i + 24),
                )),
            ),
        },
    }
}

/// What `symbol` returns for this symbol table index.
pub open spec fn spec_symbol(d: Seq<u8>, idx: SymIdx) -> ReadResult<Sym> {
    match spec_symbols(d) {
        Err(e) => Err(e),
        Ok(syms) => if idx.0 < syms.len() {
            Ok(syms[idx.0 as int])
        } else {
            Err(ElfReadError::IndexOutOfBounds { region: Region::SymbolIndex, index: idx.0 as u64 })
        },
    }
}

/// The scan `symbol_by_name` performs from entry `i` on.
pub open spec fn spec_scan_symbol(d: Seq<u8>, syms: Seq<Sym>, name: Seq<u8>, i: int) -> ScanOutcome<
    Sym,
>
    decreases syms.len() - i,
{
    if i < 0 || i >= syms.len() {
        ScanOutcome::Missing(NameKind::Symbol, name)
    } else {
        match spec_string(d, syms[i].name) {
            ScanOutcome::Failed(e) => ScanOutcome::Failed(e),
            ScanOutcome::Missing(k, n) => ScanOutcome::Missing(k, n),
            ScanOutcome::Found(s) => if s == name {
                ScanOutcome::Found(syms[i])
            } else {
                spec_scan_symbol(d, syms, name, i + 1)
            },
        }
    }
}

/// What `symbol_by_name` returns for this name.
pub open spec fn spec_symbol_by_name(d: Seq<u8>, name: Seq<u8>) -> ScanOutcome<Sym> {
    match spec_symbols(d) {
        Err(e) => ScanOutcome::Failed(e),
        Ok(syms) => spec_scan_symbol(d, syms, name, 0),
    }
}


/// The error `new` returns when it rejects a buffer.
pub open spec fn spec_new_err(d: Seq<u8>) -> ElfReadError {
    if d.len() >= 4 && !spec_magic_ok(d) {
        ElfReadError::WrongMagic(Magic(d[0], d[1], d[2], d[3]))
    } else {
        ElfReadError::FileTooSmall
    }
}

/// Compare two byte slices for equality.
pub fn bytes_eq(a: &[u8], b: &[u8]) -> (r: bool)
    ensures
        r <==> a@ == b@,
{
    proof {
        vstd::slice::axiom_spec_len(a);
        vstd::slice::axiom_spec_len(b);
    }
    if a.len() != b.len() {
        proof {
            assert(a@ != b@) by {
                assert(a@.len() != b@.len());
            }
        }
        return false;
    }
    let n = a.len();
    let mut i: usize = 0;
    while i < n
        invariant
            n == a@.len(),
            n == b@.len(),
            i <= n,
            forall|k: int| 0 <= k < i ==> a@[k] == b@[k],
        decreases n - i,
    {
        if *crate::codec::read_u8_ref(a, i) != *crate::codec::read_u8_ref(b, i) {
            proof {
                assert(a@[i as int] != b@[i as int]);
            }
            return false;
        }
        i = i + 1;
    }
    proof {
        assert(a@ =~= b@);
    }
    true
}

/// The least nul at or after `start`, matching `spec_find_nul`.
pub fn find_nul(tab: &[u8], start: usize) -> (r: Option<usize>)
    requires
        start <= tab@.len(),
    ensures
        match r {
            Some(j) => spec_find_nul(tab@, start as int) == Some(j as int) && start <= j
                < tab@.len(),
            None => spec_find_nul(tab@, start as int) is None,
        },
{
    proof {
        vstd::slice::axiom_spec_len(tab);
    }
    let n = tab.len();
    let mut j = start;
    while j < n
        invariant
            n == tab@.len(),
            start <= j <= n,
            spec_find_nul(tab@, start as int) == spec_find_nul(tab@, j as int),
        decreases n - j,
    {
        if *crate::codec::read_u8_ref(tab, j) == 0 {
            return Some(j);
        }
        j = j + 1;
    }
    None
}

impl<'a> ElfReader<'a> {
    /// Create a new reader over `data`. Only the signature and the room for
    /// the header are checked; everything else is validated lazily by the
    /// accessor that needs it.
    pub fn new(data: &'a [u8]) -> (r: ReadResult<ElfReader<'a>>)
        ensures
            r is Ok <==> spec_reader_ok(data@),
            r matches Ok(elf) ==> elf.data@ == data@,
            r matches Err(e) ==> e == spec_new_err(data@),
    {
        proof {
            vstd::slice::axiom_spec_len(data);
        }
        let n = data.len();
        if n >= 4 {
            let m0 = crate::codec::read_u8(data, 0);
            let m1 = crate::codec::read_u8(data, 1);
            let m2 = crate::codec::read_u8(data, 2);
            let m3 = crate::codec::read_u8(data, 3);
            if !(m0 == 0x7f && m1 == 0x45 && m2 == 0x4c && m3 == 0x46) {
                return Err(ElfReadError::WrongMagic(Magic(m0, m1, m2, m3)));
            }
        }
        if n < 64 {
            return Err(ElfReadError::FileTooSmall);
        }
        Ok(ElfReader { data })
    }

    /// Read the header record from the first header-sized region.
    pub fn header(&self) -> (r: ReadResult<ElfHeader>)
        ensures
            r == spec_header(self.data@),
    {
        proof {
            vstd::slice::axiom_spec_len(self.data);
        }
        if self.data.len() < 64 {
            return Err(ElfReadError::RegionOutOfBounds {
                expected: 64,
                found: self.data.len() as u64,
                region: Region::Header,
            });
        }
        Ok(crate::codec::parse_header(self.data, 0))
    }

    /// Read the program header table, after checking the on-disk entry size
    /// against the fixed record layout and the table range against the
    /// buffer.
    pub fn program_headers(&self) -> (r: ReadResult<Vec<Phdr>>)
        ensures
            r matches Ok(v) ==> spec_program_headers(self.data@) == Ok::<Seq<Phdr>, ElfReadError>(
                v@,
            ),
            r matches Err(e) ==> spec_program_headers(self.data@) == Err::<Seq<Phdr>, ElfReadError>(
                e,
            ),
    {
        let h = match self.header() {
            Ok(h) => h,
            Err(e) => {
                return Err(e);
            },
        };
        if h.phnum == 0 {
            let v: Vec<Phdr> = Vec::new();
            proof {
                assert(v@ =~= Seq::<Phdr>::empty());
            }
            return Ok(v);
        }
        if h.phentsize != 56 {
            return Err(ElfReadError::InvalidPhEntSize { expected: 56, found: h.phentsize as u64 });
        }
        proof {
            vstd::slice::axiom_spec_len(self.data);
        }
        let len = self.data.len();
        if h.phoff.0 > len as u64 {
            return Err(ElfReadError::IndexOutOfBounds {
                region: Region::ProgramHeaderOffset,
                index: h.phoff.0,
            });
        }
        let off = h.phoff.0 as usize;
        let n = h.phnum as usize;
        if len - off < 56 * n {
            return Err(ElfReadError::RegionOutOfBounds {
                expected: (56 * n) as u64,
                found: (len - off) as u64,
                region: Region::ProgramHeaders,
            });
        }
        let mut v: Vec<Phdr> = Vec::new();
        let mut i: usize = 0;
        while i < n
        invariant
            off + 56 * n <= self.data@.len(),
            self.data@.len() <= usize::MAX,
            n <= 65535,
            i <= n,
            v@ =~= Seq::new(i as nat, |j: int| spec_phdr_at(self.data@, off + 56 * j)),
        decreases n - i,
        {
            v.push(crate::codec::parse_phdr(self.data, off + i * 56));
            proof {
                assert(v@ =~= Seq::new((i + 1) as nat, |j: int| spec_phdr_at(self.data@, off + 56 * j)));
            }
            i = i + 1;
        }
        proof {
            assert(v@ =~= Seq::new(h.phnum as nat, |j: int| spec_phdr_at(self.data@, h.phoff.0 + 56 * j)));
        }
        Ok(v)
    }

    /// Read the section header table, with the same guards as the program
    /// header table.
    pub fn section_headers(&self) -> (r: ReadResult<Vec<Shdr>>)
        ensures
            r matches Ok(v) ==> spec_section_headers(self.data@) == Ok::<Seq<Shdr>, ElfReadError>(
                v@,
            ),
            r matches Err(e) ==> spec_section_headers(self.data@) == Err::<
                Seq<Shdr>,
                ElfReadError,
            >(e),
    {
        let h = match self.header() {
            Ok(h) => h,
            Err(e) => {
                return Err(e);
            },
        };
        if h.shnum == 0 {
            let v: Vec<Shdr> = Vec::new();
            proof {
                assert(v@ =~= Seq::<Shdr>::empty());
            }
            return Ok(v);
        }
        if h.shentsize != 64 {
            return Err(ElfReadError::InvalidShEntSize { expected: 64, found: h.shentsize as u64 });
        }
        proof {
            vstd::slice::axiom_spec_len(self.data);
        }
        let len = self.data.len();
        if h.shoff.0 > len as u64 {
            return Err(ElfReadError::IndexOutOfBounds {
                region: Region::SectionHeaderOffset,
                index: h.shoff.0,
            });
        }
        let off = h.shoff.0 as usize;
        let n = h.shnum as usize;
        if len - off < 64 * n {
            return Err(ElfReadError::RegionOutOfBounds {
                expected: (64 * n) as u64,
                found: (len - off) as u64,
                region: Region::SectionHeaders,
            });
        }
        let mut v: Vec<Shdr> = Vec::new();
        let mut i: usize = 0;
        while i < n
        invariant
            off + 64 * n <= self.data@.len(),
            self.data@.len() <= usize::MAX,
            n <= 65535,
            i <= n,
            v@ =~= Seq::new(i as nat, |j: int| spec_shdr_at(self.data@, off + 64 * j)),
        decreases n - i,
        {
            v.push(crate::codec::parse_shdr(self.data, off + i * 64));
            proof {
                assert(v@ =~= Seq::new((i + 1) as nat, |j: int| spec_shdr_at(self.data@, off + 64 * j)));
            }
            i = i + 1;
        }
        proof {
            assert(v@ =~= Seq::new(h.shnum as nat, |j: int| spec_shdr_at(self.data@, h.shoff.0 + 64 * j)));
        }
        Ok(v)
    }

    /// Read the section header with the given ordinal.
    pub fn section_header(&self, idx: c::SectionIdx) -> (r: ReadResult<Shdr>)
        ensures
            r == spec_section_header(self.data@, idx),
    {
        let shs = match self.section_headers() {
            Ok(v) => v,
            Err(e) => {
                return Err(e);
            },
        };
        let i = idx.0 as usize;
        if i < shs.len() {
            Ok(shs[i])
        } else {
            Err(ElfReadError::IndexOutOfBounds {
                region: Region::SectionNumber,
                index: idx.0 as u64,
            })
        }
    }

    /// The byte content of a section: empty for no-bits sections, else the
    /// exact range `[offset, offset + size)`.
    pub fn section_content(&self, sh: &Shdr) -> (r: ReadResult<&'a [u8]>)
        ensures
            r matches Ok(b) ==> spec_section_content(self.data@, *sh) == Ok::<
                Seq<u8>,
                ElfReadError,
            >(b@),
            r matches Err(e) ==> spec_section_content(self.data@, *sh) == Err::<
                Seq<u8>,
                ElfReadError,
            >(e),
    {
        proof {
            vstd::slice::axiom_spec_len(self.data);
        }
        if sh.ty.0 == c::SHT_NOBITS {
            let b = vstd::slice::slice_subrange(self.data, 0, 0);
            proof {
                assert(b@ =~= Seq::<u8>::empty());
            }
            return Ok(b);
        }
        let len = self.data.len();
        if sh.offset.0 > len as u64 {
            return Err(ElfReadError::IndexOutOfBounds {
                region: Region::SectionOffset,
                index: sh.offset.0,
            });
        }
        if sh.size > len as u64 - sh.offset.0 {
            return Err(ElfReadError::IndexOutOfBounds {
                region: Region::SectionSize,
                index: sh.size,
            });
        }
        Ok(
            vstd::slice::slice_subrange(
                self.data,
                sh.offset.0 as usize,
                (sh.offset.0 + sh.size) as usize,
            ),
        )
    }

    /// The content of the section name string table, located through the
    /// header's section name table ordinal.
    pub fn sh_str_table(&self) -> (r: ReadResult<&'a [u8]>)
        ensures
            r matches Ok(b) ==> spec_sh_str_table(self.data@) == Ok::<Seq<u8>, ElfReadError>(b@),
            r matches Err(e) ==> spec_sh_str_table(self.data@) == Err::<Seq<u8>, ElfReadError>(e),
    {
        let h = match self.header() {
            Ok(h) => h,
            Err(e) => {
                return Err(e);
            },
        };
        if h.shstrndex.0 == c::SHN_UNDEF || h.shstrndex.0 >= c::SHN_LORESERVE {
            return Err(ElfReadError::StrTableSectionNotPresent);
        }
        let sh = match self.section_header(h.shstrndex) {
            Ok(sh) => sh,
            Err(e) => {
                return Err(e);
            },
        };
        self.section_content(&sh)
    }
}


/// The relocation records packed in a section's content, paired with it.
pub open spec fn spec_rela_pairs(sh: Shdr, content: Seq<u8>) -> Seq<(Shdr, Rela)> {
    Seq::new(
        (content.len() / 24) as nat,
        |j: int| (sh, crate::codec::spec_parse_rela(content.subrange(24 * j, 24 * j + 24))),
    )
}

/// What `relas` yields from section `i` on: every relocation-type section's
/// records, in header order, each in table order.
pub open spec fn spec_relas_from(d: Seq<u8>, shs: Seq<Shdr>, i: int) -> ReadResult<
    Seq<(Shdr, Rela)>,
>
    decreases shs.len() - i,
{
    if i < 0 || i >= shs.len() {
        Ok(Seq::empty())
    } else if shs[i].ty.0 != c::SHT_RELA {
        spec_relas_from(d, shs, i + 1)
    } else {
        match spec_section_content(d, shs[i]) {
            Err(e) => Err(e),
            Ok(content) => match spec_relas_from(d, shs, i + 1) {
                Err(e) => Err(e),
                Ok(rest) => Ok(spec_rela_pairs(shs[i], content) + rest),
            },
        }
    }
}

/// What `relas` returns on a buffer with these bytes.
pub open spec fn spec_relas(d: Seq<u8>) -> ReadResult<Seq<(Shdr, Rela)>> {
    match spec_section_headers(d) {
        Err(e) => Err(e),
        Ok(shs) => spec_relas_from(d, shs, 0),
    }
}

/// The dynamic records packed in a section's content.
pub open spec fn spec_dyn_list(content: Seq<u8>) -> Seq<Dyn> {
    Seq::new(
        (content.len() / 16) as nat,
        |j: int| crate::codec::spec_parse_dyn(content.subrange(16 * j, 16 * j + 16)),
    )
}

/// What `dyn_entries` returns: the records of the section named ".dynamic".
pub open spec fn spec_dyn_entries(d: Seq<u8>) -> ScanOutcome<Seq<Dyn>> {
    match spec_section_header_by_name(d, spec_dynamic_name()) {
        ScanOutcome::Failed(e) => ScanOutcome::Failed(e),
        ScanOutcome::Missing(k, n) => ScanOutcome::Missing(k, n),
        ScanOutcome::Found(sh) => match spec_section_content(d, sh) {
            Err(e) => ScanOutcome::Failed(e),
            Ok(content) => ScanOutcome::Found(spec_dyn_list(content)),
        },
    }
}

/// The first dynamic entry with the given tag, in table order.
pub open spec fn spec_scan_dyn_tag(dyns: Seq<Dyn>, tag: u64, i: int) -> Option<Dyn>
    decreases dyns.len() - i,
{
    if i < 0 || i >= dyns.len() {
        None
    } else if dyns[i].tag.0 == tag {
        Some(dyns[i])
    } else {
        spec_scan_dyn_tag(dyns, tag, i + 1)
    }
}

/// What `dyn_entry_by_tag` returns for this tag value.
pub open spec fn spec_dyn_entry_by_tag(d: Seq<u8>, tag: u64) -> ScanOutcome<Dyn> {
    match spec_dyn_entries(d) {
        ScanOutcome::Failed(e) => ScanOutcome::Failed(e),
        ScanOutcome::Missing(k, n) => ScanOutcome::Missing(k, n),
        ScanOutcome::Found(list) => match spec_scan_dyn_tag(list, tag, 0) {
            Some(x) => ScanOutcome::Found(x),
            None => ScanOutcome::Failed(ElfReadError::DynEntryNotFound(c::DynamicTag(tag))),
        },
    }
}

/// What `dyn_content` returns for this address and size.
pub open spec fn spec_dyn_content(d: Seq<u8>, addr: u64, size: u64) -> ReadResult<Seq<u8>> {
    if addr > d.len() {
        Err(ElfReadError::IndexOutOfBounds { region: Region::DynContentOffset, index: addr })
    } else if size > d.len() - addr {
        Err(ElfReadError::IndexOutOfBounds { region: Region::SectionSize, index: size })
    } else {
        Ok(d.subrange(addr as int, addr + size))
    }
}

/// What `dyn_string` returns: the string at `idx` inside the table addressed
/// by the dynamic section's STRTAB and STRSZ entries.
pub open spec fn spec_dyn_string(d: Seq<u8>, idx: StringIdx) -> ScanOutcome<Seq<u8>> {
    match spec_dyn_entry_by_tag(d, c::DT_STRTAB) {
        ScanOutcome::Failed(e) => ScanOutcome::Failed(e),
        ScanOutcome::Missing(k, n) => ScanOutcome::Missing(k, n),
        ScanOutcome::Found(ta) => match spec_dyn_entry_by_tag(d, c::DT_STRSZ) {
            ScanOutcome::Failed(e) => ScanOutcome::Failed(e),
            ScanOutcome::Missing(k, n) => ScanOutcome::Missing(k, n),
            ScanOutcome::Found(ts) => if ta.val > d.len() {
                ScanOutcome::Failed(
                    ElfReadError::IndexOutOfBounds {
                        region: Region::DynStringTable,
                        index: ta.val,
                    },
                )
            } else if ts.val > d.len() - ta.val {
                ScanOutcome::Failed(
                    ElfReadError::IndexOutOfBounds {
                        region: Region::DynStringTableSize,
                        index: ts.val,
                    },
                )
            } else {
                match spec_string_at(d.subrange(ta.val as int, ta.val + ts.val), idx.0) {
                    Err(e) => ScanOutcome::Failed(e),
                    Ok(st) => ScanOutcome::Found(st),
                }
            },
        },
    }
}

/// What `dyn_symbols` returns: the records addressed by the dynamic
/// section's SYMTAB entry, within a region sized by its SYMENT entry.
pub open spec fn spec_dyn_symbols(d: Seq<u8>) -> ScanOutcome<Seq<Sym>> {
    match spec_dyn_entry_by_tag(d, c::DT_SYMTAB) {
        ScanOutcome::Failed(e) => ScanOutcome::Failed(e),
        ScanOutcome::Missing(k, n) => ScanOutcome::Missing(k, n),
        ScanOutcome::Found(a) => match spec_dyn_entry_by_tag(d, c::DT_SYMENT) {
            ScanOutcome::Failed(e) => ScanOutcome::Failed(e),
            ScanOutcome::Missing(k, n) => ScanOutcome::Missing(k, n),
            ScanOutcome::Found(sz) => match spec_dyn_content(d, a.val, sz.val) {
                Err(e) => ScanOutcome::Failed(e),
                Ok(content) => ScanOutcome::Found(
                    Seq::new(
                        (content.len() / 24) as nat,
                        |j: int| crate::codec::spec_parse_sym(content.subrange(24 * j, 24 * j + 24)),
                    ),
                ),
            },
        },
    }
}

/// What `dyn_symbol` returns for this index.
pub open spec fn spec_dyn_symbol(d: Seq<u8>, idx: SymIdx) -> ScanOutcome<Sym> {
    match spec_dyn_symbols(d) {
        ScanOutcome::Failed(e) => ScanOutcome::Failed(e),
        ScanOutcome::Missing(k, n) => ScanOutcome::Missing(k, n),
        ScanOutcome::Found(syms) => if idx.0 < syms.len() {
            ScanOutcome::Found(syms[idx.0 as int])
        } else {
            ScanOutcome::Failed(
                ElfReadError::IndexOutOfBounds { region: Region::SymbolIndex, index: idx.0 as u64 },
            )
        },
    }
}


/// The nul-terminated string at `idx` inside a string table slice.
pub fn string_at<'t>(tab: &'t [u8], idx: u32) -> (r: ReadResult<&'t [u8]>)
    ensures
        r matches Ok(b) ==> spec_string_at(tab@, idx) == Ok::<Seq<u8>, ElfReadError>(b@),
        r matches Err(e) ==> spec_string_at(tab@, idx) == Err::<Seq<u8>, ElfReadError>(e),
{
    proof {
        vstd::slice::axiom_spec_len(tab);
    }
    if idx as u64 > tab.len() as u64 {
        return Err(ElfReadError::IndexOutOfBounds {
            region: Region::StringOffset,
            index: idx as u64,
        });
    }
    let start = idx as usize;
    match find_nul(tab, start) {
        Some(end) => Ok(vstd::slice::slice_subrange(tab, start, end)),
        None => Err(ElfReadError::NoStringNulTerm(idx as u64)),
    }
}

impl<'a> ElfReader<'a> {
    /// The string at `idx` in the section name string table.
    pub fn sh_string(&self, idx: ShStringIdx) -> (r: ReadResult<&'a [u8]>)
        ensures
            r matches Ok(b) ==> spec_sh_string(self.data@, idx) == Ok::<Seq<u8>, ElfReadError>(b@),
            r matches Err(e) ==> spec_sh_string(self.data@, idx) == Err::<Seq<u8>, ElfReadError>(e),
    {
        let tab = match self.sh_str_table() {
            Ok(t) => t,
            Err(e) => {
                return Err(e);
            },
        };
        string_at(tab, idx.0)
    }

    /// The first section whose resolved name equals `name`, in table order.
    pub fn section_header_by_name(&self, name: &[u8]) -> (r: ReadResult<Shdr>)
        ensures
            match spec_section_header_by_name(self.data@, name@) {
                ScanOutcome::Found(sh) => r matches Ok(s) && s == sh,
                ScanOutcome::Failed(e) => r matches Err(e2) && e2 == e,
                ScanOutcome::Missing(k, nm) => r matches Err(e2) && (e2 matches
                    ElfReadError::NotFoundByName { kind, name: n } && kind == k && n@ == nm),
            },
    {
        let shs = match self.section_headers() {
            Ok(v) => v,
            Err(e) => {
                return Err(e);
            },
        };
        let n = shs.len();
        let mut i: usize = 0;
        while i < n
            invariant
                n == shs@.len(),
                i <= n,
                spec_section_headers(self.data@) == Ok::<Seq<Shdr>, ElfReadError>(shs@),
                spec_scan_section(self.data@, shs@, name@, 0) == spec_scan_section(
                    self.data@,
                    shs@,
                    name@,
                    i as int,
                ),
            decreases n - i,
        {
            let s = match self.sh_string(shs[i].name) {
                Ok(s) => s,
                Err(e) => {
                    return Err(e);
                },
            };
            if bytes_eq(s, name) {
                return Ok(shs[i]);
            }
            i = i + 1;
        }
        Err(
            ElfReadError::NotFoundByName {
                kind: NameKind::Section,
                name: vstd::slice::slice_to_vec(name),
            },
        )
    }

    /// The first section of the given type, in table order.
    pub fn section_header_by_type(&self, ty: u32) -> (r: ReadResult<Shdr>)
        ensures
            r == spec_section_header_by_type(self.data@, ty),
    {
        let shs = match self.section_headers() {
            Ok(v) => v,
            Err(e) => {
                return Err(e);
            },
        };
        let n = shs.len();
        let mut i: usize = 0;
        while i < n
            invariant
                n == shs@.len(),
                i <= n,
                spec_section_headers(self.data@) == Ok::<Seq<Shdr>, ElfReadError>(shs@),
                spec_scan_section_ty(shs@, ty, 0) == spec_scan_section_ty(shs@, ty, i as int),
            decreases n - i,
        {
            if shs[i].ty.0 == ty {
                return Ok(shs[i]);
            }
            i = i + 1;
        }
        Err(ElfReadError::SectionTypeNotFound(c::ShType(ty)))
    }

    /// The content of the section named ".strtab".
    pub fn str_table(&self) -> (r: ReadResult<&'a [u8]>)
        ensures
            match spec_str_table(self.data@) {
                ScanOutcome::Found(tab) => r matches Ok(b) && b@ == tab,
                ScanOutcome::Failed(e) => r matches Err(e2) && e2 == e,
                ScanOutcome::Missing(k, nm) => r matches Err(e2) && (e2 matches
                    ElfReadError::NotFoundByName { kind, name: n } && kind == k && n@ == nm),
            },
    {
        let name = strtab_name();
        let sh = match self.section_header_by_name(name.as_slice()) {
            Ok(sh) => sh,
            Err(e) => {
                return Err(e);
            },
        };
        self.section_content(&sh)
    }

    /// The string at `idx` in the ".strtab" string table.
    pub fn string(&self, idx: StringIdx) -> (r: ReadResult<&'a [u8]>)
        ensures
            match spec_string(self.data@, idx) {
                ScanOutcome::Found(st) => r matches Ok(b) && b@ == st,
                ScanOutcome::Failed(e) => r matches Err(e2) && e2 == e,
                ScanOutcome::Missing(k, nm) => r matches Err(e2) && (e2 matches
                    ElfReadError::NotFoundByName { kind, name: n } && kind == k && n@ == nm),
            },
    {
        let tab = match self.str_table() {
            Ok(t) => t,
            Err(e) => {
                return Err(e);
            },
        };
        string_at(tab, idx.0)
    }

    /// All records of the one symbol-table section.
    pub fn symbols(&self) -> (r: ReadResult<Vec<Sym>>)
        ensures
            r matches Ok(v) ==> spec_symbols(self.data@) == Ok::<Seq<Sym>, ElfReadError>(v@),
            r matches Err(e) ==> spec_symbols(self.data@) == Err::<Seq<Sym>, ElfReadError>(e),
    {
        let sh = match self.section_header_by_type(c::SHT_SYMTAB) {
            Ok(s) => s,
            Err(e) => {
                return Err(e);
            },
        };
        let content = match self.section_content(&sh) {
            Ok(b) => b,
            Err(e) => {
                return Err(e);
            },
        };
        proof {
            vstd::slice::axiom_spec_len(content);
            vstd::arithmetic::div_mod::lemma_fundamental_div_mod(content@.len() as int, 24);
            vstd::arithmetic::div_mod::lemma_mod_bound(content@.len() as int, 24);
        }
        let count = content.len() / 24;
        let mut v: Vec<Sym> = Vec::new();
        let mut i: usize = 0;
        while i < count
            invariant
                count == content@.len() / 24,
                24 * count <= content@.len(),
                content@.len() <= usize::MAX,
                i <= count,
                v@ =~= Seq::new(
                    i as nat,
                    |j: int| crate::codec::spec_parse_sym(content@.subrange(24 * j, 24 * j + 24)),
                ),
            decreases count - i,
        {
            v.push(crate::codec::parse_sym(content, i * 24));
            proof {
                assert(v@ =~= Seq::new(
                    (i + 1) as nat,
                    |j: int| crate::codec::spec_parse_sym(content@.subrange(24 * j, 24 * j + 24)),
                ));
            }
            i = i + 1;
        }
        Ok(v)
    }

    /// The symbol record at the given symbol table index.
    pub fn symbol(&self, idx: SymIdx) -> (r: ReadResult<Sym>)
        ensures
            r == spec_symbol(self.data@, idx),
    {
        let syms = match self.symbols() {
            Ok(v) => v,
            Err(e) => {
                return Err(e);
            },
        };
        let i = idx.0 as usize;
        if i < syms.len() {
            Ok(syms[i])
        } else {
            Err(ElfReadError::IndexOutOfBounds { region: Region::SymbolIndex, index: idx.0 as u64 })
        }
    }

    /// The first symbol whose resolved name equals `name`, in table order.
    pub fn symbol_by_name(&self, name: &[u8]) -> (r: ReadResult<Sym>)
        ensures
            match spec_symbol_by_name(self.data@, name@) {
                ScanOutcome::Found(sym) => r matches Ok(s) && s == sym,
                ScanOutcome::Failed(e) => r matches Err(e2) && e2 == e,
                ScanOutcome::Missing(k, nm) => r matches Err(e2) && (e2 matches
                    ElfReadError::NotFoundByName { kind, name: n } && kind == k && n@ == nm),
            },
    {
        let syms = match self.symbols() {
            Ok(v) => v,
            Err(e) => {
                return Err(e);
            },
        };
        let n = syms.len();
        let mut i: usize = 0;
        while i < n
            invariant
                n == syms@.len(),
                i <= n,
                spec_symbols(self.data@) == Ok::<Seq<Sym>, ElfReadError>(syms@),
                spec_scan_symbol(self.data@, syms@, name@, 0) == spec_scan_symbol(
                    self.data@,
                    syms@,
                    name@,
                    i as int,
                ),
            decreases n - i,
        {
            let s = match self.string(syms[i].name) {
                Ok(s) => s,
                Err(e) => {
                    return Err(e);
                },
            };
            if bytes_eq(s, name) {
                return Ok(syms[i]);
            }
            i = i + 1;
        }
        Err(
            ElfReadError::NotFoundByName {
                kind: NameKind::Symbol,
                name: vstd::slice::slice_to_vec(name),
            },
        )
    }

    /// Every relocation-with-addend record, paired with its owning section,
    /// drawn from every relocation-type section in header order.
    pub fn relas(&self) -> (r: ReadResult<Vec<(Shdr, Rela)>>)
        ensures
            r matches Ok(v) ==> spec_relas(self.data@) == Ok::<Seq<(Shdr, Rela)>, ElfReadError>(v@),
            r matches Err(e) ==> spec_relas(self.data@) == Err::<Seq<(Shdr, Rela)>, ElfReadError>(
                e,
            ),
    {
        let shs = match self.section_headers() {
            Ok(v) => v,
            Err(e) => {
                return Err(e);
            },
        };
        let n = shs.len();
        let mut v: Vec<(Shdr, Rela)> = Vec::new();
        let mut i: usize = 0;
        while i < n
            invariant
                n == shs@.len(),
                i <= n,
                spec_section_headers(self.data@) == Ok::<Seq<Shdr>, ElfReadError>(shs@),
                match spec_relas_from(self.data@, shs@, i as int) {
                    Ok(rest) => spec_relas_from(self.data@, shs@, 0) == Ok::<
                        Seq<(Shdr, Rela)>,
                        ElfReadError,
                    >(v@ + rest),
                    Err(e) => spec_relas_from(self.data@, shs@, 0) == Err::<
                        Seq<(Shdr, Rela)>,
                        ElfReadError,
                    >(e),
                },
            decreases n - i,
        {
            if shs[i].ty.0 == c::SHT_RELA {
                let content = match self.section_content(&shs[i]) {
                    Ok(b) => b,
                    Err(e) => {
                        return Err(e);
                    },
                };
                proof {
                    vstd::slice::axiom_spec_len(content);
                    vstd::arithmetic::div_mod::lemma_fundamental_div_mod(content@.len() as int, 24);
                    vstd::arithmetic::div_mod::lemma_mod_bound(content@.len() as int, 24);
                }
                let count = content.len() / 24;
                let ghost v0 = v@;
                let mut j: usize = 0;
                while j < count
                    invariant
                        count == content@.len() / 24,
                        24 * count <= content@.len(),
                        content@.len() <= usize::MAX,
                        j <= count,
                        i < n,
                        n == shs@.len(),
                        v@ =~= v0 + spec_rela_pairs(shs@[i as int], content@).take(j as int),
                    decreases count - j,
                {
                    let rl = crate::codec::parse_rela(content, j * 24);
                    v.push((shs[i], rl));
                    proof {
                        assert(v@ =~= v0 + spec_rela_pairs(shs@[i as int], content@).take(
                            (j + 1) as int,
                        ));
                    }
                    j = j + 1;
                }
                proof {
                    assert(spec_rela_pairs(shs@[i as int], content@).take(count as int)
                        =~= spec_rela_pairs(shs@[i as int], content@));
                    assert forall|rest: Seq<(Shdr, Rela)>|
                        v0 + (spec_rela_pairs(shs@[i as int], content@) + rest) =~= v@
                            + rest by {}
                }
            }
            i = i + 1;
        }
        Ok(v)
    }

    /// All records of the section named ".dynamic".
    pub fn dyn_entries(&self) -> (r: ReadResult<Vec<Dyn>>)
        ensures
            match spec_dyn_entries(self.data@) {
                ScanOutcome::Found(list) => r matches Ok(v) && v@ == list,
                ScanOutcome::Failed(e) => r matches Err(e2) && e2 == e,
                ScanOutcome::Missing(k, nm) => r matches Err(e2) && (e2 matches
                    ElfReadError::NotFoundByName { kind, name: n } && kind == k && n@ == nm),
            },
    {
        let name = dynamic_name();
        let sh = match self.section_header_by_name(name.as_slice()) {
            Ok(sh) => sh,
            Err(e) => {
                return Err(e);
            },
        };
        let content = match self.section_content(&sh) {
            Ok(b) => b,
            Err(e) => {
                return Err(e);
            },
        };
        proof {
            vstd::slice::axiom_spec_len(content);
            vstd::arithmetic::div_mod::lemma_fundamental_div_mod(content@.len() as int, 16);
            vstd::arithmetic::div_mod::lemma_mod_bound(content@.len() as int, 16);
        }
        let count = content.len() / 16;
        let mut v: Vec<Dyn> = Vec::new();
        let mut i: usize = 0;
        while i < count
            invariant
                count == content@.len() / 16,
                16 * count <= content@.len(),
                content@.len() <= usize::MAX,
                i <= count,
                v@ =~= spec_dyn_list(content@).take(i as int),
            decreases count - i,
        {
            v.push(crate::codec::parse_dyn(content, i * 16));
            proof {
                assert(v@ =~= spec_dyn_list(content@).take((i + 1) as int));
            }
            i = i + 1;
        }
        proof {
            assert(spec_dyn_list(content@).take(count as int) =~= spec_dyn_list(content@));
        }
        Ok(v)
    }

    /// The first dynamic entry with the given tag.
    pub fn dyn_entry_by_tag(&self, tag: u64) -> (r: ReadResult<Dyn>)
        ensures
            match spec_dyn_entry_by_tag(self.data@, tag) {
                ScanOutcome::Found(x) => r matches Ok(s) && s == x,
                ScanOutcome::Failed(e) => r matches Err(e2) && e2 == e,
                ScanOutcome::Missing(k, nm) => r matches Err(e2) && (e2 matches
                    ElfReadError::NotFoundByName { kind, name: n } && kind == k && n@ == nm),
            },
    {
        let dyns = match self.dyn_entries() {
            Ok(v) => v,
            Err(e) => {
                return Err(e);
            },
        };
        let n = dyns.len();
        let mut i: usize = 0;
        while i < n
            invariant
                n == dyns@.len(),
                i <= n,
                spec_dyn_entries(self.data@) == ScanOutcome::Found(dyns@),
                spec_scan_dyn_tag(dyns@, tag, 0) == spec_scan_dyn_tag(dyns@, tag, i as int),
            decreases n - i,
        {
            if dyns[i].tag.0 == tag {
                return Ok(dyns[i]);
            }
            i = i + 1;
        }
        Err(ElfReadError::DynEntryNotFound(c::DynamicTag(tag)))
    }

    /// The raw byte range `[addr, addr + size)` of the buffer.
    pub fn dyn_content(&self, addr: u64, size: u64) -> (r: ReadResult<&'a [u8]>)
        ensures
            r matches Ok(b) ==> spec_dyn_content(self.data@, addr, size) == Ok::<
                Seq<u8>,
                ElfReadError,
            >(b@),
            r matches Err(e) ==> spec_dyn_content(self.data@, addr, size) == Err::<
                Seq<u8>,
                ElfReadError,
            >(e),
    {
        proof {
            vstd::slice::axiom_spec_len(self.data);
        }
        let len = self.data.len();
        if addr > len as u64 {
            return Err(ElfReadError::IndexOutOfBounds {
                region: Region::DynContentOffset,
                index: addr,
            });
        }
        if size > len as u64 - addr {
            return Err(ElfReadError::IndexOutOfBounds { region: Region::SectionSize, index: size });
        }
        Ok(vstd::slice::slice_subrange(self.data, addr as usize, (addr + size) as usize))
    }

    /// The string at `idx` inside the table addressed by the dynamic
    /// section's STRTAB and STRSZ entries.
    pub fn dyn_string(&self, idx: StringIdx) -> (r: ReadResult<&'a [u8]>)
        ensures
            match spec_dyn_string(self.data@, idx) {
                ScanOutcome::Found(st) => r matches Ok(b) && b@ == st,
                ScanOutcome::Failed(e) => r matches Err(e2) && e2 == e,
                ScanOutcome::Missing(k, nm) => r matches Err(e2) && (e2 matches
                    ElfReadError::NotFoundByName { kind, name: n } && kind == k && n@ == nm),
            },
    {
        let ta = match self.dyn_entry_by_tag(c::DT_STRTAB) {
            Ok(x) => x,
            Err(e) => {
                return Err(e);
            },
        };
        let ts = match self.dyn_entry_by_tag(c::DT_STRSZ) {
            Ok(x) => x,
            Err(e) => {
                return Err(e);
            },
        };
        proof {
            vstd::slice::axiom_spec_len(self.data);
        }
        let len = self.data.len();
        if ta.val > len as u64 {
            return Err(ElfReadError::IndexOutOfBounds {
                region: Region::DynStringTable,
                index: ta.val,
            });
        }
        if ts.val > len as u64 - ta.val {
            return Err(ElfReadError::IndexOutOfBounds {
                region: Region::DynStringTableSize,
                index: ts.val,
            });
        }
        let tab = vstd::slice::slice_subrange(self.data, ta.val as usize, (ta.val + ts.val) as usize);
        string_at(tab, idx.0)
    }

    /// The symbol records addressed by the dynamic section's SYMTAB entry.
    pub fn dyn_symbols(&self) -> (r: ReadResult<Vec<Sym>>)
        ensures
            match spec_dyn_symbols(self.data@) {
                ScanOutcome::Found(list) => r matches Ok(v) && v@ == list,
                ScanOutcome::Failed(e) => r matches Err(e2) && e2 == e,
                ScanOutcome::Missing(k, nm) => r matches Err(e2) && (e2 matches
                    ElfReadError::NotFoundByName { kind, name: n } && kind == k && n@ == nm),
            },
    {
        let a = match self.dyn_entry_by_tag(c::DT_SYMTAB) {
            Ok(x) => x,
            Err(e) => {
                return Err(e);
            },
        };
        let sz = match self.dyn_entry_by_tag(c::DT_SYMENT) {
            Ok(x) => x,
            Err(e) => {
                return Err(e);
            },
        };
        let content = match self.dyn_content(a.val, sz.val) {
            Ok(b) => b,
            Err(e) => {
                return Err(e);
            },
        };
        proof {
            vstd::slice::axiom_spec_len(content);
            vstd::arithmetic::div_mod::lemma_fundamental_div_mod(content@.len() as int, 24);
            vstd::arithmetic::div_mod::lemma_mod_bound(content@.len() as int, 24);
        }
        let count = content.len() / 24;
        let mut v: Vec<Sym> = Vec::new();
        let mut i: usize = 0;
        while i < count
            invariant
                count == content@.len() / 24,
                24 * count <= content@.len(),
                content@.len() <= usize::MAX,
                i <= count,
                v@ =~= Seq::new(
                    i as nat,
                    |j: int| crate::codec::spec_parse_sym(content@.subrange(24 * j, 24 * j + 24)),
                ),
            decreases count - i,
        {
            v.push(crate::codec::parse_sym(content, i * 24));
            proof {
                assert(v@ =~= Seq::new(
                    (i + 1) as nat,
                    |j: int| crate::codec::spec_parse_sym(content@.subrange(24 * j, 24 * j + 24)),
                ));
            }
            i = i + 1;
        }
        Ok(v)
    }

    /// The dynamic symbol record at the given index.
    pub fn dyn_symbol(&self, idx: SymIdx) -> (r: ReadResult<Sym>)
        ensures
            match spec_dyn_symbol(self.data@, idx) {
                ScanOutcome::Found(x) => r matches Ok(s) && s == x,
                ScanOutcome::Failed(e) => r matches Err(e2) && e2 == e,
                ScanOutcome::Missing(k, nm) => r matches Err(e2) && (e2 matches
                    ElfReadError::NotFoundByName { kind, name: n } && kind == k && n@ == nm),
            },
    {
        let syms = match self.dyn_symbols() {
            Ok(v) => v,
            Err(e) => {
                return Err(e);
            },
        };
        let i = idx.0 as usize;
        if i < syms.len() {
            Ok(syms[i])
        } else {
            Err(ElfReadError::IndexOutOfBounds { region: Region::SymbolIndex, index: idx.0 as u64 })
        }
    }
}


/// A failure propagated out of the by-name section scan is never itself a
/// by-name miss: misses are reported through the scan's own outcome.
pub proof fn lemma_scan_section_failed_no_notfound(d: Seq<u8>, shs: Seq<Shdr>, name: Seq<u8>, i: int)
    ensures
        spec_scan_section(d, shs, name, i) matches ScanOutcome::Failed(e) ==> !(e matches
            ElfReadError::NotFoundByName { .. }),
    decreases shs.len() - i,
{
    if 0 <= i < shs.len() {
        lemma_scan_section_failed_no_notfound(d, shs, name, i + 1);
    }
}

/// Same fact at the `section_header_by_name` level.
pub proof fn lemma_byname_failed_no_notfound(d: Seq<u8>, name: Seq<u8>)
    ensures
        spec_section_header_by_name(d, name) matches ScanOutcome::Failed(e) ==> !(e matches
            ElfReadError::NotFoundByName { .. }),
{
    if spec_section_headers(d) is Ok {
        lemma_scan_section_failed_no_notfound(
            d,
            spec_section_headers(d)->Ok_0,
            name,
            0,
        );
    }
}


/// The law of magic rejection: any buffer of at least four bytes whose
/// first four are not the ELF signature is refused with `WrongMagic`
/// carrying those bytes, whatever its length.
pub proof fn law_magic_rejection(d: Seq<u8>)
    requires
        d.len() >= 4,
        !spec_magic_ok(d),
    ensures
        !spec_reader_ok(d),
        spec_new_err(d) == ElfReadError::WrongMagic(Magic(d[0], d[1], d[2], d[3])),
{
}

/// The law of the entry-size guard: a table whose declared per-entry size
/// differs from the fixed record layout is refused outright, before any
/// bounds arithmetic could make a differently-sized table "fit".
pub proof fn law_entry_size_guard(d: Seq<u8>)
    requires
        d.len() >= 64,
    ensures
        ({
            let h = crate::codec::spec_parse_header(d.subrange(0, 64));
            &&& (h.phnum != 0 && h.phentsize != 56 ==> spec_program_headers(d) == Err::<
                Seq<Phdr>,
                ElfReadError,
            >(ElfReadError::InvalidPhEntSize { expected: 56, found: h.phentsize as u64 }))
            &&& (h.shnum != 0 && h.shentsize != 64 ==> spec_section_headers(d) == Err::<
                Seq<Shdr>,
                ElfReadError,
            >(ElfReadError::InvalidShEntSize { expected: 64, found: h.shentsize as u64 }))
        }),
{
}

/// The law of bounds safety: a table is only ever handed out when its
/// declared range lies entirely inside the buffer; a range that does not
/// fit is refused with a bounds error.
pub proof fn law_table_bounds(d: Seq<u8>)
    ensures
        spec_program_headers(d) matches Ok(phs) ==> (phs.len() == 0 || (d.len() >= 64
            && crate::codec::spec_parse_header(d.subrange(0, 64)).phoff.0 + 56 * phs.len()
            <= d.len())),
        spec_section_headers(d) matches Ok(shs) ==> (shs.len() == 0 || (d.len() >= 64
            && crate::codec::spec_parse_header(d.subrange(0, 64)).shoff.0 + 64 * shs.len()
            <= d.len())),
{
}

} // verus!
