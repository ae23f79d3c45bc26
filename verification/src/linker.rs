//! The linker engine: cross-file symbol resolution, section storage
//! allocation, and emission of the linked executable image.

use vstd::prelude::*;
use crate::consts as c;
use crate::read::{ElfReadError, ElfReader, NameKind, Sym};
use crate::write::WriteElfError;
use crate::Addr;

verus! {

/// The base virtual address the linked executable is laid out from.
pub const BASE_EXEC_ADDR: u64 = 0x400000;

/// The page size sections are aligned to by default.
pub const DEFAULT_PAGE_ALIGN: u64 = 0x1000;

/// An ordinal identifying one input object within a link invocation.
#[derive(Debug, Clone, Copy, PartialEq, Eq, Structural)]
pub struct FileId(pub usize);

/// One section of one input object.
#[derive(Debug, Clone, Copy, PartialEq, Eq, Structural)]
pub struct SectionId {
    pub file: FileId,
    pub section: c::SectionIdx,
}

/// One input object: its ordinal and the reader over its bytes.
#[derive(Debug, Clone, Copy)]
pub struct ElfFile<'a> {
    pub id: FileId,
    pub elf: ElfReader<'a>,
}

/// Where a symbol is defined: owning file and section, value and size.
#[derive(Debug, Clone, Copy, PartialEq, Eq, Structural)]
pub struct SymbolDefinition {
    pub location: SectionId,
    pub value: Addr,
    pub size: u64,
}

/// One entry of the global symbol table: a name, and its definition once one
/// has been seen.
#[derive(Debug, Clone, PartialEq, Eq)]
pub struct Symbol {
    pub name: Vec<u8>,
    pub definition: Option<SymbolDefinition>,
}

#[derive(Debug, Clone, PartialEq, Eq)]
pub enum LinkError {
    /// A read of an input object failed.
    Read(ElfReadError),
    /// Serializing the output image failed.
    Write(WriteElfError),
    /// No input objects were supplied.
    NoInputFiles,
    /// Two input files both define the same global symbol.
    DuplicateSymbol { name: Vec<u8>, first: FileId, second: FileId },
    /// The entry symbol has no definition in any input file.
    EntrySymbolUndefined,
    /// The entry symbol's section was not placed by storage allocation.
    EntrySectionNotAllocated,
    /// An input section's alignment is not a power of two.
    InvalidAlignment { file: FileId, align: u64 },
    /// The layout ran out of address space or the image cannot fit memory.
    AddressOverflow,
}

pub type LinkResult<T> = Result<T, LinkError>;

/// The spec-level outcome of a linker stage: it can succeed, fail with a
/// constructible error, miss a name, or find a duplicate definition (the two
/// latter errors carry byte strings that only executable code can package).
pub enum LinkOutcome<T> {
    Done(T),
    Fail(LinkError),
    MissingName(NameKind, Seq<u8>),
    Duplicate(Seq<u8>, FileId, FileId),
}

/// The bytes of the canonical section name ".text".
pub open spec fn spec_text_name() -> Seq<u8> {
    seq![0x2eu8, 0x74u8, 0x65u8, 0x78u8, 0x74u8]
}

/// The bytes of the canonical section name ".data".
pub open spec fn spec_data_name() -> Seq<u8> {
    seq![0x2eu8, 0x64u8, 0x61u8, 0x74u8, 0x61u8]
}

/// The bytes of the canonical section name ".bss".
pub open spec fn spec_bss_name() -> Seq<u8> {
    seq![0x2eu8, 0x62u8, 0x73u8, 0x73u8]
}

/// The bytes of the entry symbol name "_start".
pub open spec fn spec_start_name() -> Seq<u8> {
    seq![0x5fu8, 0x73u8, 0x74u8, 0x61u8, 0x72u8, 0x74u8]
}

pub fn text_name() -> (r: Vec<u8>)
    ensures
        r@ == spec_text_name(),
{
    let mut v: Vec<u8> = Vec::new();
    v.push(0x2e);
    v.push(0x74);
    v.push(0x65);
    v.push(0x78);
    v.push(0x74);
    proof {
        assert(v@ =~= spec_text_name());
    }
    v
}

pub fn data_name() -> (r: Vec<u8>)
    ensures
        r@ == spec_data_name(),
{
    let mut v: Vec<u8> = Vec::new();
    v.push(0x2e);
    v.push(0x64);
    v.push(0x61);
    v.push(0x74);
    v.push(0x61);
    proof {
        assert(v@ =~= spec_data_name());
    }
    v
}

pub fn bss_name() -> (r: Vec<u8>)
    ensures
        r@ == spec_bss_name(),
{
    let mut v: Vec<u8> = Vec::new();
    v.push(0x2e);
    v.push(0x62);
    v.push(0x73);
    v.push(0x73);
    proof {
        assert(v@ =~= spec_bss_name());
    }
    v
}

pub fn start_name() -> (r: Vec<u8>)
    ensures
        r@ == spec_start_name(),
{
    let mut v: Vec<u8> = Vec::new();
    v.push(0x5f);
    v.push(0x73);
    v.push(0x74);
    v.push(0x61);
    v.push(0x72);
    v.push(0x74);
    proof {
        assert(v@ =~= spec_start_name());
    }
    v
}

/// The views of the input buffers, in input order.
pub open spec fn spec_file_datas<'a>(files: Seq<ElfFile<'a>>) -> Seq<Seq<u8>> {
    files.map_values(|f: ElfFile<'a>| f.elf.data@)
}

/// The input ordinals, in input order.
pub open spec fn spec_file_ids<'a>(files: Seq<ElfFile<'a>>) -> Seq<FileId> {
    files.map_values(|f: ElfFile<'a>| f.id)
}


// ------------------
// Symbol resolution
// ------------------

/// One table entry, mathematically: the name and its definition, if any.
pub type SymEntry = (Seq<u8>, Option<SymbolDefinition>);

/// The mathematical model of the global symbol table: entries in first
/// occurrence order, names unique.
pub type TableModel = Seq<SymEntry>;

/// The view of the executable symbol table.
pub open spec fn spec_table_view(v: Seq<Symbol>) -> TableModel {
    v.map_values(|s: Symbol| (s.name@, s.definition))
}

/// The first table entry with this name, from `i` on.
pub open spec fn spec_tbl_index(t: TableModel, name: Seq<u8>, i: int) -> Option<int>
    decreases t.len() - i,
{
    if i < 0 || i >= t.len() {
        None
    } else if t[i].0 == name {
        Some(i)
    } else {
        spec_tbl_index(t, name, i + 1)
    }
}

/// The definition a symbol record carries: none when its owning-section
/// index is UNDEF (a bare reference), else file, section, value and size.
pub open spec fn spec_sym_def(id: FileId, sym: Sym) -> Option<SymbolDefinition> {
    if sym.shndx.0 == c::SHN_UNDEF {
        None
    } else {
        Some(
            SymbolDefinition {
                location: SectionId { file: id, section: sym.shndx },
                value: sym.value,
                size: sym.size,
            },
        )
    }
}

/// One resolution step. A new name is inserted as it stands; a second
/// definition of an already-defined name is a duplicate, naming both files;
/// a definition fills an earlier bare reference; a reference after a
/// definition changes nothing.
pub open spec fn spec_resolve_one(
    t: TableModel,
    name: Seq<u8>,
    def: Option<SymbolDefinition>,
    cur: FileId,
) -> LinkOutcome<TableModel> {
    match spec_tbl_index(t, name, 0) {
        None => LinkOutcome::Done(t.push((name, def))),
        Some(i) => match (t[i].1, def) {
            (Some(ex), Some(_)) => LinkOutcome::Duplicate(name, ex.location.file, cur),
            (None, Some(d)) => LinkOutcome::Done(t.update(i, (t[i].0, Some(d)))),
            _ => LinkOutcome::Done(t),
        },
    }
}

/// Whether a symbol record is skipped by resolution: section symbols are
/// structural, not linkable names.
pub open spec fn spec_sym_skipped(sym: Sym) -> bool {
    sym.info.0 & 0xf == c::STT_SECTION
}

/// Resolution over one file's symbol records, from record `j` on.
pub open spec fn spec_resolve_file(
    d: Seq<u8>,
    id: FileId,
    syms: Seq<Sym>,
    j: int,
    t: TableModel,
) -> LinkOutcome<TableModel>
    decreases syms.len() - j,
{
    if j < 0 || j >= syms.len() {
        LinkOutcome::Done(t)
    } else if spec_sym_skipped(syms[j]) {
        spec_resolve_file(d, id, syms, j + 1, t)
    } else {
        match crate::read::spec_string(d, syms[j].name) {
            crate::read::ScanOutcome::Failed(e) => LinkOutcome::Fail(LinkError::Read(e)),
            crate::read::ScanOutcome::Missing(k, n) => LinkOutcome::MissingName(k, n),
            crate::read::ScanOutcome::Found(nm) => match spec_resolve_one(
                t,
                nm,
                spec_sym_def(id, syms[j]),
                id,
            ) {
                LinkOutcome::Done(t2) => spec_resolve_file(d, id, syms, j + 1, t2),
                LinkOutcome::Fail(e) => LinkOutcome::Fail(e),
                LinkOutcome::MissingName(k, n) => LinkOutcome::MissingName(k, n),
                LinkOutcome::Duplicate(n, a, b) => LinkOutcome::Duplicate(n, a, b),
            },
        }
    }
}

/// Resolution over all files, from file `f` on.
pub open spec fn spec_resolve(
    datas: Seq<Seq<u8>>,
    ids: Seq<FileId>,
    f: int,
    t: TableModel,
) -> LinkOutcome<TableModel>
    decreases datas.len() - f,
{
    if f < 0 || f >= datas.len() {
        LinkOutcome::Done(t)
    } else {
        match crate::read::spec_symbols(datas[f]) {
            Err(e) => LinkOutcome::Fail(LinkError::Read(e)),
            Ok(syms) => match spec_resolve_file(datas[f], ids[f], syms, 0, t) {
                LinkOutcome::Done(t2) => spec_resolve(datas, ids, f + 1, t2),
                LinkOutcome::Fail(e) => LinkOutcome::Fail(e),
                LinkOutcome::MissingName(k, n) => LinkOutcome::MissingName(k, n),
                LinkOutcome::Duplicate(n, a, b) => LinkOutcome::Duplicate(n, a, b),
            },
        }
    }
}

/// What symbol resolution computes over a set of input files, as a function
/// of their bytes alone.
pub open spec fn spec_resolve_symbols(datas: Seq<Seq<u8>>, ids: Seq<FileId>) -> LinkOutcome<
    TableModel,
> {
    spec_resolve(datas, ids, 0, Seq::empty())
}

/// One executable resolution step against the growing table.
fn resolve_one(
    table: &mut Vec<Symbol>,
    name: Vec<u8>,
    def: Option<SymbolDefinition>,
    cur: FileId,
) -> (r: LinkResult<()>)
    ensures
        match spec_resolve_one(spec_table_view(old(table)@), name@, def, cur) {
            LinkOutcome::Done(t2) => r is Ok && spec_table_view(final(table)@) == t2,
            LinkOutcome::Duplicate(nm, a, b) => r matches Err(e) && (e matches
                LinkError::DuplicateSymbol { name: n, first, second } && n@ == nm && first == a
                && second == b) && final(table)@ == old(table)@,
            LinkOutcome::Fail(_) => false,
            LinkOutcome::MissingName(..) => false,
        },
{
    let ghost t0 = spec_table_view(old(table)@);
    let n = table.len();
    let mut i: usize = 0;
    while i < n
        invariant
            n == table@.len(),
            i <= n,
            table@ == old(table)@,
            t0 == spec_table_view(table@),
            spec_tbl_index(t0, name@, 0) == spec_tbl_index(t0, name@, i as int),
        decreases n - i,
    {
        if crate::read::bytes_eq(table[i].name.as_slice(), name.as_slice()) {
            proof {
                assert(t0[i as int].0 == name@);
                assert(spec_tbl_index(t0, name@, i as int) == Some(i as int));
            }
            let has_def = table[i].definition.is_some();
            match (has_def, def) {
                (true, Some(_)) => {
                    let first = match table[i].definition {
                        Some(ex) => ex.location.file,
                        None => cur,
                    };
                    return Err(LinkError::DuplicateSymbol { name, first, second: cur });
                },
                (false, Some(d)) => {
                    let slot = &mut table[i];
                    slot.definition = Some(d);
                    proof {
                        assert(spec_table_view(table@) =~~= t0.update(
                            i as int,
                            (t0[i as int].0, Some(d)),
                        ));
                    }
                    return Ok(());
                },
                _ => {
                    return Ok(());
                },
            }
        }
        proof {
            assert(t0[i as int].0 == table@[i as int].name@);
        }
        i = i + 1;
    }
    let ghost namev = name@;
    table.push(Symbol { name, definition: def });
    proof {
        assert(spec_table_view(table@) =~~= t0.push((namev, def)));
    }
    Ok(())
}

/// Stage three: a single pass over every input file's symbol table that
/// builds the global symbol table. Section symbols are skipped; a name seen
/// twice with two definitions aborts the link naming both files.
pub fn resolve_symbols<'a>(files: &[ElfFile<'a>]) -> (r: LinkResult<Vec<Symbol>>)
    ensures
        match spec_resolve_symbols(spec_file_datas(files@), spec_file_ids(files@)) {
            LinkOutcome::Done(t) => r matches Ok(v) && spec_table_view(v@) == t,
            LinkOutcome::Fail(e) => r matches Err(e2) && e2 == e,
            LinkOutcome::MissingName(k, nm) => r matches Err(e2) && (e2 matches LinkError::Read(re)
                && re matches crate::read::ElfReadError::NotFoundByName { kind, name } && kind == k
                && name@ == nm),
            LinkOutcome::Duplicate(nm, a, b) => r matches Err(e2) && (e2 matches
                LinkError::DuplicateSymbol { name, first, second } && name@ == nm && first == a
                && second == b),
        },
{
    let ghost datas = spec_file_datas(files@);
    let ghost ids = spec_file_ids(files@);
    proof {
        vstd::slice::axiom_spec_len(files);
    }
    let mut table: Vec<Symbol> = Vec::new();
    proof {
        assert(spec_table_view(table@) =~= Seq::<SymEntry>::empty());
    }
    let nfiles = files.len();
    let mut f: usize = 0;
    while f < nfiles
        invariant
            nfiles == files@.len(),
            f <= nfiles,
            datas == spec_file_datas(files@),
            ids == spec_file_ids(files@),
            datas.len() == nfiles,
            ids.len() == nfiles,
            spec_resolve(datas, ids, 0, Seq::empty()) == spec_resolve(
                datas,
                ids,
                f as int,
                spec_table_view(table@),
            ),
        decreases nfiles - f,
    {
        let file = &files[f];
        proof {
            assert(file.elf.data@ == datas[f as int]);
            assert(file.id == ids[f as int]);
        }
        let syms = match file.elf.symbols() {
            Ok(v) => v,
            Err(e) => {
                return Err(LinkError::Read(e));
            },
        };
        let nsyms = syms.len();
        let mut j: usize = 0;
        while j < nsyms
            invariant
                nfiles == files@.len(),
                f < nfiles,
                nsyms == syms@.len(),
                j <= nsyms,
                datas == spec_file_datas(files@),
                ids == spec_file_ids(files@),
                datas.len() == nfiles,
                ids.len() == nfiles,
                file.elf.data@ == datas[f as int],
                file.id == ids[f as int],
                crate::read::spec_symbols(datas[f as int]) == Ok::<
                    Seq<Sym>,
                    crate::read::ElfReadError,
                >(syms@),
                spec_resolve(datas, ids, 0, Seq::empty()) == match spec_resolve_file(
                    datas[f as int],
                    ids[f as int],
                    syms@,
                    j as int,
                    spec_table_view(table@),
                ) {
                    LinkOutcome::Done(t2) => spec_resolve(datas, ids, f as int + 1, t2),
                    LinkOutcome::Fail(e) => LinkOutcome::Fail(e),
                    LinkOutcome::MissingName(k, n) => LinkOutcome::MissingName(k, n),
                    LinkOutcome::Duplicate(n, a, b) => LinkOutcome::Duplicate(n, a, b),
                },
            decreases nsyms - j,
        {
            let sym = syms[j];
            if sym.info.0 & 0xf != c::STT_SECTION {
                let name_slice = match file.elf.string(sym.name) {
                    Ok(s) => s,
                    Err(e) => {
                        return Err(LinkError::Read(e));
                    },
                };
                let name = vstd::slice::slice_to_vec(name_slice);
                let def: Option<SymbolDefinition> = if sym.shndx.0 == c::SHN_UNDEF {
                    None
                } else {
                    Some(
                        SymbolDefinition {
                            location: SectionId { file: file.id, section: sym.shndx },
                            value: sym.value,
                            size: sym.size,
                        },
                    )
                };
                proof {
                    assert(def == spec_sym_def(ids[f as int], syms@[j as int]));
                }
                match resolve_one(&mut table, name, def, file.id) {
                    Ok(()) => {},
                    Err(e) => {
                        return Err(e);
                    },
                }
            }
            j = j + 1;
        }
        f = f + 1;
    }
    Ok(table)
}


// ------------------
// Emission
// ------------------

/// The header template the linker emits from: ELF64, little-endian, System V,
/// an executable for the one supported machine.
pub open spec fn spec_create_header() -> crate::read::ElfHeader {
    crate::read::ElfHeader {
        ident: crate::read::ElfIdent {
            magic: crate::read::Magic(0x7f, 0x45, 0x4c, 0x46),
            class: c::Class(c::ELFCLASS64),
            data: c::Data(c::ELFDATA2LSB),
            version: 1,
            osabi: c::OsAbi(c::ELFOSABI_SYSV),
            abiversion: 0,
            pad: (0, 0, 0, 0, 0, 0, 0),
        },
        ty: c::Type(c::ET_EXEC),
        machine: c::Machine(c::EM_X86_64),
        version: 1,
        entry: crate::Addr(0x3333333333333333),
        phoff: crate::Offset(0),
        shoff: crate::Offset(0),
        flags: u32::MAX,
        ehsize: 64,
        phentsize: 56,
        phnum: 0x3333,
        shentsize: 64,
        shnum: 0x3333,
        shstrndex: c::SectionIdx(1),
    }
}

/// Build the writer the linker starts from.
pub fn create_elf() -> (r: crate::write::ElfWriter)
    ensures
        r.header == spec_create_header(),
        r.sections@.len() == 2,
        r.sections@[0].content@.len() == 0,
        r.sections@[0].addr_align is None,
        r.sections@[0].ty == c::ShType(c::SHT_NULL),
        r.sections@[1].content@ == crate::write::spec_initial_shstrtab(),
        r.sections@[1].addr_align is None,
        r.sections@[1].ty == c::ShType(c::SHT_STRTAB),
        r.program_headers@.len() == 0,
    {
    let ident = crate::read::ElfIdent {
        magic: crate::read::Magic(0x7f, 0x45, 0x4c, 0x46),
        class: c::Class(c::ELFCLASS64),
        data: c::Data(c::ELFDATA2LSB),
        version: 1,
        osabi: c::OsAbi(c::ELFOSABI_SYSV),
        abiversion: 0,
        pad: (0, 0, 0, 0, 0, 0, 0),
    };
    let header = crate::write::Header { ident, ty: c::Type(c::ET_EXEC), machine: c::Machine(c::EM_X86_64) };
    crate::write::ElfWriter::new(header)
}

/// The bytes the section named `name` contributes from one input file.
pub open spec fn spec_part_bytes(d: Seq<u8>, name: Seq<u8>) -> LinkOutcome<Seq<u8>> {
    match crate::read::spec_section_header_by_name(d, name) {
        crate::read::ScanOutcome::Found(sh) => match crate::read::spec_section_content(d, sh) {
            Ok(b) => LinkOutcome::Done(b),
            Err(e) => LinkOutcome::Fail(LinkError::Read(e)),
        },
        crate::read::ScanOutcome::Failed(e) => LinkOutcome::Fail(LinkError::Read(e)),
        crate::read::ScanOutcome::Missing(k, n) => LinkOutcome::MissingName(k, n),
    }
}

/// The merged content of one canonical section, parts `j` on: each part
/// contributes its recorded padding and then its section's bytes; a merge
/// that cannot fit in memory fails.
pub open spec fn spec_merge_parts(
    datas: Seq<Seq<u8>>,
    name: Seq<u8>,
    parts: Seq<crate::storage::SegmentPart>,
    j: int,
    acc: Seq<u8>,
) -> LinkOutcome<Seq<u8>>
    decreases parts.len() - j,
{
    if j < 0 || j >= parts.len() {
        LinkOutcome::Done(acc)
    } else {
        let p = parts[j];
        match spec_part_bytes(datas[p.file.0 as int], name) {
            LinkOutcome::Done(b) => {
                if acc.len() + p.pad_from_prev + b.len() > usize::MAX {
                    LinkOutcome::Fail(LinkError::AddressOverflow)
                } else {
                    spec_merge_parts(
                        datas,
                        name,
                        parts,
                        j + 1,
                        acc + crate::codec::spec_zeros(p.pad_from_prev as int) + b,
                    )
                }
            },
            LinkOutcome::Fail(e) => LinkOutcome::Fail(e),
            LinkOutcome::MissingName(k, n) => LinkOutcome::MissingName(k, n),
            LinkOutcome::Duplicate(n, a, b) => LinkOutcome::Duplicate(n, a, b),
        }
    }
}

/// The merged contents of every planned section, entries `i` on.
pub open spec fn spec_merge_all(
    datas: Seq<Seq<u8>>,
    st: crate::storage::StorageModel,
    i: int,
    acc: Seq<Seq<u8>>,
) -> LinkOutcome<Seq<Seq<u8>>>
    decreases st.len() - i,
{
    if i < 0 || i >= st.len() {
        LinkOutcome::Done(acc)
    } else {
        match spec_merge_parts(datas, st[i].0, st[i].1, 0, Seq::empty()) {
            LinkOutcome::Done(b) => spec_merge_all(datas, st, i + 1, acc.push(b)),
            LinkOutcome::Fail(e) => LinkOutcome::Fail(e),
            LinkOutcome::MissingName(k, n) => LinkOutcome::MissingName(k, n),
            LinkOutcome::Duplicate(n, a, b) => LinkOutcome::Duplicate(n, a, b),
        }
    }
}

/// The first planned section with this name, from `i` on.
pub open spec fn spec_storage_index(st: crate::storage::StorageModel, name: Seq<u8>, i: int) -> Option<int>
    decreases st.len() - i,
{
    if i < 0 || i >= st.len() {
        None
    } else if st[i].0 == name {
        Some(i)
    } else {
        spec_storage_index(st, name, i + 1)
    }
}

/// The first part owned by this file, from `j` on.
pub open spec fn spec_part_for_file(parts: Seq<crate::storage::SegmentPart>, id: FileId, j: int) -> Option<int>
    decreases parts.len() - j,
{
    if j < 0 || j >= parts.len() {
        None
    } else if parts[j].file == id {
        Some(j)
    } else {
        spec_part_for_file(parts, id, j + 1)
    }
}

/// The absolute entry address: the well-known entry symbol must have a
/// definition; its address is the base of the part its defining file
/// contributed to its section, plus the symbol's recorded value.
pub open spec fn spec_entry_addr(
    datas: Seq<Seq<u8>>,
    st: crate::storage::StorageModel,
    tbl: TableModel,
) -> LinkOutcome<u64> {
    match spec_tbl_index(tbl, spec_start_name(), 0) {
        None => LinkOutcome::Fail(LinkError::EntrySymbolUndefined),
        Some(ti) => match tbl[ti].1 {
            None => LinkOutcome::Fail(LinkError::EntrySymbolUndefined),
            Some(def) => {
                let d = datas[def.location.file.0 as int];
                match crate::read::spec_section_header(d, def.location.section) {
                    Err(e) => LinkOutcome::Fail(LinkError::Read(e)),
                    Ok(sh) => match crate::read::spec_sh_string(d, sh.name) {
                        Err(e) => LinkOutcome::Fail(LinkError::Read(e)),
                        Ok(sname) => match spec_storage_index(st, sname, 0) {
                            None => LinkOutcome::Fail(LinkError::EntrySectionNotAllocated),
                            Some(si) => match spec_part_for_file(st[si].1, def.location.file, 0) {
                                None => LinkOutcome::Fail(LinkError::EntrySectionNotAllocated),
                                Some(pi) => {
                                    if st[si].1[pi].base.0 + def.value.0 > u64::MAX {
                                        LinkOutcome::Fail(LinkError::AddressOverflow)
                                    } else {
                                        LinkOutcome::Done((st[si].1[pi].base.0 + def.value.0) as u64)
                                    }
                                },
                            },
                        },
                    },
                }
            },
        },
    }
}

/// What one link invocation computes before serialization: the storage
/// plan, the resolved symbol table, the merged section contents, and the
/// entry address.
pub open spec fn spec_link(datas: Seq<Seq<u8>>, ids: Seq<FileId>) -> LinkOutcome<
    (crate::storage::StorageModel, TableModel, Seq<Seq<u8>>, u64),
> {
    if datas.len() == 0 {
        LinkOutcome::Fail(LinkError::NoInputFiles)
    } else {
        match crate::storage::spec_allocate_storage(BASE_EXEC_ADDR, datas, ids) {
            LinkOutcome::Done(st) => match spec_resolve_symbols(datas, ids) {
                LinkOutcome::Done(tbl) => match spec_merge_all(datas, st, 0, Seq::empty()) {
                    LinkOutcome::Done(merged) => match spec_entry_addr(datas, st, tbl) {
                        LinkOutcome::Done(entry) => LinkOutcome::Done((st, tbl, merged, entry)),
                        LinkOutcome::Fail(e) => LinkOutcome::Fail(e),
                        LinkOutcome::MissingName(k, n) => LinkOutcome::MissingName(k, n),
                        LinkOutcome::Duplicate(n, a, b) => LinkOutcome::Duplicate(n, a, b),
                    },
                    LinkOutcome::Fail(e) => LinkOutcome::Fail(e),
                    LinkOutcome::MissingName(k, n) => LinkOutcome::MissingName(k, n),
                    LinkOutcome::Duplicate(n, a, b) => LinkOutcome::Duplicate(n, a, b),
                },
                LinkOutcome::Fail(e) => LinkOutcome::Fail(e),
                LinkOutcome::MissingName(k, n) => LinkOutcome::MissingName(k, n),
                LinkOutcome::Duplicate(n, a, b) => LinkOutcome::Duplicate(n, a, b),
            },
            LinkOutcome::Fail(e) => LinkOutcome::Fail(e),
            LinkOutcome::MissingName(k, n) => LinkOutcome::MissingName(k, n),
            LinkOutcome::Duplicate(n, a, b) => LinkOutcome::Duplicate(n, a, b),
        }
    }
}

/// The section name table after the names of the first `i` planned sections
/// have been appended.
pub open spec fn spec_shstrtab_names(st: crate::storage::StorageModel, i: int) -> Seq<u8>
    decreases i,
{
    if i <= 0 {
        crate::write::spec_initial_shstrtab()
    } else {
        spec_shstrtab_names(st, i - 1) + st[i - 1].0 + seq![0u8]
    }
}

/// The section flags of a merged section: all are allocated, the canonical
/// text section is also executable.
pub open spec fn spec_section_flags(name: Seq<u8>) -> u64 {
    if name == spec_text_name() {
        c::SHF_ALLOC | c::SHF_EXECINSTR
    } else {
        c::SHF_ALLOC
    }
}

/// The segment permissions of a merged section: readable, the canonical
/// text section executable, the rest writable.
pub open spec fn spec_segment_flags(name: Seq<u8>) -> u32 {
    if name == spec_text_name() {
        c::PF_X | c::PF_R
    } else {
        c::PF_R | c::PF_W
    }
}

/// The span a merged section occupies in memory: from its first part's base
/// to its last part's end (no-bits parts occupy memory but no file bytes).
pub open spec fn spec_section_memsz(parts: Seq<crate::storage::SegmentPart>) -> int {
    parts[parts.len() - 1].base.0 + parts[parts.len() - 1].size - parts[0].base.0
}

/// One merged output section of the linked writer.
pub open spec fn spec_linked_section(
    w: crate::write::ElfWriter,
    st: crate::storage::StorageModel,
    merged: Seq<Seq<u8>>,
    i: int,
) -> bool {
    let s = w.sections@[2 + i];
    &&& s.name == crate::read::ShStringIdx(spec_shstrtab_names(st, i).len() as u32)
    &&& s.ty == c::ShType(c::SHT_PROGBITS)
    &&& s.flags == spec_section_flags(st[i].0)
    &&& s.fixed_entsize is None
    &&& s.addr_align == Some(st[i].1[0].align)
    &&& s.content@ == merged[i]
}

/// One loadable program header of the linked writer.
pub open spec fn spec_linked_ph(
    w: crate::write::ElfWriter,
    st: crate::storage::StorageModel,
    merged: Seq<Seq<u8>>,
    i: int,
) -> bool {
    let ph = w.program_headers@[i];
    &&& ph.ty == c::PhType(c::PT_LOAD)
    &&& ph.flags == c::PhFlags(spec_segment_flags(st[i].0))
    &&& ph.offset.section == c::SectionIdx((2 + i) as u16)
    &&& ph.offset.rel_offset == crate::Offset(0)
    &&& ph.vaddr == crate::Addr(st[i].1[0].base.0)
    &&& ph.paddr == crate::Addr(st[i].1[0].base.0)
    &&& ph.filesz == merged[i].len()
    &&& ph.memsz == spec_section_memsz(st[i].1)
    &&& ph.align == DEFAULT_PAGE_ALIGN
}

/// The writer the linker hands to the layout pass, pinned field by field by
/// the storage plan, the merged contents, and the entry address.
pub open spec fn spec_linked_writer(
    w: crate::write::ElfWriter,
    st: crate::storage::StorageModel,
    merged: Seq<Seq<u8>>,
    entry: u64,
) -> bool {
    &&& w.header == (crate::read::ElfHeader { entry: crate::Addr(entry), ..spec_create_header() })
    &&& w.sections@.len() == 2 + st.len()
    &&& w.program_headers@.len() == st.len()
    &&& w.sections@[0].content@.len() == 0
    &&& w.sections@[0].addr_align is None
    &&& w.sections@[0].ty == c::ShType(c::SHT_NULL)
    &&& w.sections@[1].content@ == spec_shstrtab_names(st, st.len() as int)
    &&& w.sections@[1].addr_align is None
    &&& w.sections@[1].ty == c::ShType(c::SHT_STRTAB)
    &&& forall|i: int| 0 <= i < st.len() ==> #[trigger] spec_linked_section(w, st, merged, i)
    &&& forall|i: int| 0 <= i < st.len() ==> #[trigger] spec_linked_ph(w, st, merged, i)
}


/// Every definition in the table names a file inside the input range.
pub open spec fn spec_tbl_files_ok(t: TableModel, n: int) -> bool {
    forall|i: int|
        0 <= i < t.len() ==> match (#[trigger] t[i]).1 {
            Some(d) => d.location.file.0 < n,
            None => true,
        }
}

pub proof fn lemma_resolve_one_files_ok(
    t: TableModel,
    name: Seq<u8>,
    def: Option<SymbolDefinition>,
    cur: FileId,
    n: int,
)
    requires
        spec_tbl_files_ok(t, n),
        def matches Some(d) ==> d.location.file.0 < n,
    ensures
        spec_resolve_one(t, name, def, cur) matches LinkOutcome::Done(t2) ==> spec_tbl_files_ok(
            t2,
            n,
        ),
{
    match spec_tbl_index(t, name, 0) {
        Some(i) => {
            lemma_tbl_index_some(t, name, 0, i);
        },
        None => {
            assert(spec_resolve_one(t, name, def, cur) == LinkOutcome::<TableModel>::Done(
                t.push((name, def)),
            ));
        },
    }
}

/// A found table index is in range and carries the name.
pub proof fn lemma_tbl_index_some(t: TableModel, name: Seq<u8>, i: int, r: int)
    requires
        spec_tbl_index(t, name, i) == Some(r),
        0 <= i,
    ensures
        i <= r < t.len(),
        t[r].0 == name,
    decreases t.len() - i,
{
    if i < t.len() && t[i].0 != name {
        lemma_tbl_index_some(t, name, i + 1, r);
    }
}

pub proof fn lemma_resolve_file_files_ok(
    d: Seq<u8>,
    id: FileId,
    syms: Seq<Sym>,
    j: int,
    t: TableModel,
    n: int,
)
    requires
        spec_tbl_files_ok(t, n),
        id.0 < n,
        0 <= j,
    ensures
        spec_resolve_file(d, id, syms, j, t) matches LinkOutcome::Done(t2) ==> spec_tbl_files_ok(
            t2,
            n,
        ),
    decreases syms.len() - j,
{
    if 0 <= j < syms.len() {
        if spec_sym_skipped(syms[j]) {
            lemma_resolve_file_files_ok(d, id, syms, j + 1, t, n);
        } else {
            match crate::read::spec_string(d, syms[j].name) {
                crate::read::ScanOutcome::Found(nm) => {
                    lemma_resolve_one_files_ok(t, nm, spec_sym_def(id, syms[j]), id, n);
                    match spec_resolve_one(t, nm, spec_sym_def(id, syms[j]), id) {
                        LinkOutcome::Done(t2) => {
                            lemma_resolve_file_files_ok(d, id, syms, j + 1, t2, n);
                        },
                        _ => {},
                    }
                },
                _ => {},
            }
        }
    }
}

pub proof fn lemma_resolve_files_ok(datas: Seq<Seq<u8>>, ids: Seq<FileId>, f: int, t: TableModel, n: int)
    requires
        spec_tbl_files_ok(t, n),
        0 <= f,
        forall|g: int| 0 <= g < ids.len() ==> (#[trigger] ids[g]).0 < n,
        ids.len() == datas.len(),
    ensures
        spec_resolve(datas, ids, f, t) matches LinkOutcome::Done(t2) ==> spec_tbl_files_ok(t2, n),
    decreases datas.len() - f,
{
    if 0 <= f < datas.len() {
        match crate::read::spec_symbols(datas[f]) {
            Ok(syms) => {
                lemma_resolve_file_files_ok(datas[f], ids[f], syms, 0, t, n);
                match spec_resolve_file(datas[f], ids[f], syms, 0, t) {
                    LinkOutcome::Done(t2) => {
                        lemma_resolve_files_ok(datas, ids, f + 1, t2, n);
                    },
                    _ => {},
                }
            },
            _ => {},
        }
    }
}

/// The section name table stays small: the canonical names are at most six
/// bytes each, nul included.
pub proof fn lemma_shstrtab_names_len(st: crate::storage::StorageModel, i: int)
    requires
        0 <= i <= st.len(),
        forall|k: int|
            0 <= k < st.len() ==> ((#[trigger] st[k]).0 == spec_text_name() || st[k].0
                == spec_data_name() || st[k].0 == spec_bss_name()),
    ensures
        11 <= spec_shstrtab_names(st, i).len() <= 11 + 6 * i,
    decreases i,
{
    if i > 0 {
        lemma_shstrtab_names_len(st, i - 1);
    }
}


/// Whether a link result is the post-layout capacity failure: the image
/// cannot fit the address space of this machine.
pub open spec fn spec_capacity_err(r: LinkResult<Vec<u8>>) -> bool {
    r == Err::<Vec<u8>, LinkError>(LinkError::AddressOverflow)
}

/// A successful link's output: the serialization of a writer shaped by the
/// storage plan, the merged contents and the entry address.
pub open spec fn spec_link_ok(
    out: Seq<u8>,
    st: crate::storage::StorageModel,
    merged: Seq<Seq<u8>>,
    entry: u64,
) -> bool {
    exists|w: crate::write::ElfWriter|
        {
            &&& #[trigger] spec_linked_writer(w, st, merged, entry)
            &&& crate::write::spec_writer_wf(w)
            &&& out == crate::write::spec_write_bytes(w)
            &&& out.len() == crate::write::spec_end_offset(w)
        }
}

/// Link the input objects into one executable image: allocate storage,
/// resolve symbols, merge each canonical section's bytes, emit one loadable
/// segment per merged section, resolve the entry symbol, and serialize.
#[verifier::rlimit(100)]
#[verifier::spinoff_prover]
pub fn link<'a>(files: &[ElfFile<'a>]) -> (r: LinkResult<Vec<u8>>)
    requires
        forall|i: int| 0 <= i < files@.len() ==> (#[trigger] files@[i]).id == FileId(i as usize),
    ensures
        match spec_link(spec_file_datas(files@), spec_file_ids(files@)) {
            LinkOutcome::Done((st, tbl, merged, entry)) => {
                &&& (r matches Ok(out) ==> spec_link_ok(out@, st, merged, entry))
                &&& (r is Err ==> spec_capacity_err(r) && (forall|w2: crate::write::ElfWriter|
                    #[trigger] spec_linked_writer(w2, st, merged, entry)
                        ==> !crate::write::spec_writer_wf(w2)))
            },
            LinkOutcome::Fail(e) => r matches Err(e2) && e2 == e,
            LinkOutcome::MissingName(k, nm) => r matches Err(e2) && (e2 matches LinkError::Read(re)
                && re matches crate::read::ElfReadError::NotFoundByName { kind, name } && kind == k
                && name@ == nm),
            LinkOutcome::Duplicate(nm, a, b) => r matches Err(e2) && (e2 matches
                LinkError::DuplicateSymbol { name, first, second } && name@ == nm && first == a
                && second == b),
        },
{
    let ghost datas = spec_file_datas(files@);
    let ghost ids = spec_file_ids(files@);
    proof {
        vstd::slice::axiom_spec_len(files);
        assert(datas.len() == files@.len());
        assert(ids.len() == files@.len());
    }
    let nfiles = files.len();
    if nfiles == 0 {
        return Err(LinkError::NoInputFiles);
    }

    // Stage two: storage allocation.
    let storage = match crate::storage::allocate_storage(crate::Addr(BASE_EXEC_ADDR), files) {
        Ok(st) => st,
        Err(e) => {
            return Err(e);
        },
    };
    let ghost st = crate::storage::spec_storage_view(storage.sections@);
    proof {
        crate::storage::law_storage_plan(BASE_EXEC_ADDR, datas, ids);
        assert(forall|g: int| 0 <= g < ids.len() ==> (#[trigger] ids[g]).0 < nfiles);
        crate::storage::lemma_storage_files_ok(BASE_EXEC_ADDR, datas, ids, nfiles as int);
    }

    // Stage three: symbol resolution.
    let table = match resolve_symbols(files) {
        Ok(t) => t,
        Err(e) => {
            return Err(e);
        },
    };
    let ghost tbl = spec_table_view(table@);
    proof {
        lemma_resolve_files_ok(datas, ids, 0, Seq::empty(), nfiles as int);
    }

    // Stage four: merge each planned section's bytes and hand them to the
    // writer, one loadable segment per merged section.
    let mut writer = create_elf();
    let ghost mut mviews: Seq<Seq<u8>> = Seq::empty();
    let nsec = storage.sections.len();
    proof {
        assert(nsec == st.len());
        assert(st.len() <= 3);
    }
    let mut i: usize = 0;
    while i < nsec
        invariant
            nfiles == files@.len(),
            nfiles > 0,
            datas == spec_file_datas(files@),
            ids == spec_file_ids(files@),
            datas.len() == nfiles,
            ids.len() == nfiles,
            forall|g: int| 0 <= g < files@.len() ==> (#[trigger] files@[g]).id == FileId(
                g as usize,
            ),
            nsec == storage.sections@.len(),
            st == crate::storage::spec_storage_view(storage.sections@),
            st.len() == nsec,
            nsec <= 3,
            i <= nsec,
            forall|k: int|
                0 <= k < st.len() ==> (((#[trigger] st[k]).0 == spec_text_name() || st[k].0
                    == spec_data_name() || st[k].0 == spec_bss_name()) && st[k].1.len() >= 1
                    && crate::storage::spec_parts_ok(st[k].1)),
            crate::storage::spec_st_files_ok(st, nfiles as int),
            crate::storage::spec_allocate_storage(BASE_EXEC_ADDR, datas, ids)
                == LinkOutcome::<crate::storage::StorageModel>::Done(st),
            spec_resolve_symbols(datas, ids) == LinkOutcome::<TableModel>::Done(tbl),
            tbl == spec_table_view(table@),
            mviews.len() == i,
            spec_merge_all(datas, st, 0, Seq::empty()) == spec_merge_all(
                datas,
                st,
                i as int,
                mviews,
            ),
            writer.header == spec_create_header(),
            writer.sections@.len() == 2 + i,
            writer.program_headers@.len() == i,
            writer.sections@[0].content@.len() == 0,
            writer.sections@[0].addr_align is None,
            writer.sections@[0].ty == c::ShType(c::SHT_NULL),
            writer.sections@[1].content@ == spec_shstrtab_names(st, i as int),
            writer.sections@[1].addr_align is None,
            writer.sections@[1].ty == c::ShType(c::SHT_STRTAB),
            forall|j: int| 0 <= j < i ==> #[trigger] spec_linked_section(writer, st, mviews, j),
            forall|j: int| 0 <= j < i ==> #[trigger] spec_linked_ph(writer, st, mviews, j),
        decreases nsec - i,
    {
        let ghost sti = st[i as int];
        proof {
            assert(storage.sections@[i as int].name@ == sti.0);
            assert(storage.sections@[i as int].parts@ == sti.1);
        }
        let nparts = storage.sections[i].parts.len();
        let mut content: Vec<u8> = Vec::new();
        let mut j: usize = 0;
        while j < nparts
            invariant
                nfiles == files@.len(),
                datas == spec_file_datas(files@),
                datas.len() == nfiles,
                nsec == storage.sections@.len(),
                st == crate::storage::spec_storage_view(storage.sections@),
                st.len() == nsec,
                i < nsec,
                sti == st[i as int],
                storage.sections@[i as int].name@ == sti.0,
                storage.sections@[i as int].parts@ == sti.1,
                nparts == sti.1.len(),
                j <= nparts,
                nfiles > 0,
                ids == spec_file_ids(files@),
                ids.len() == nfiles,
                crate::storage::spec_st_files_ok(st, nfiles as int),
                crate::storage::spec_allocate_storage(BASE_EXEC_ADDR, datas, ids)
                    == LinkOutcome::<crate::storage::StorageModel>::Done(st),
                spec_resolve_symbols(datas, ids) == LinkOutcome::<TableModel>::Done(tbl),
                mviews.len() == i as int,
                spec_merge_all(datas, st, 0, Seq::empty()) == spec_merge_all(
                    datas,
                    st,
                    i as int,
                    mviews,
                ),
                spec_merge_parts(datas, sti.0, sti.1, 0, Seq::empty()) == spec_merge_parts(
                    datas,
                    sti.0,
                    sti.1,
                    j as int,
                    content@,
                ),
            decreases nparts - j,
        {
            let part = storage.sections[i].parts[j];
            proof {
                assert(part == sti.1[j as int]);
                assert(part.file.0 < nfiles);
                assert(files@[part.file.0 as int].elf.data@ == datas[part.file.0 as int]);
            }
            let elf = files[part.file.0].elf;
            let shdr = match elf.section_header_by_name(storage.sections[i].name.as_slice()) {
                Ok(sh) => sh,
                Err(e) => {
                    return Err(LinkError::Read(e));
                },
            };
            let data = match elf.section_content(&shdr) {
                Ok(b) => b,
                Err(e) => {
                    return Err(LinkError::Read(e));
                },
            };
            proof {
                vstd::slice::axiom_spec_len(data);
            }
            let total: u128 = (content.len() as u128) + (part.pad_from_prev as u128) + (
            data.len() as u128);
            if total > usize::MAX as u128 {
                return Err(LinkError::AddressOverflow);
            }
            crate::codec::push_zeros(&mut content, part.pad_from_prev as usize);
            crate::codec::push_bytes(&mut content, data);
            j = j + 1;
        }
        let ghost contentv = content@;
        let ghost w0 = writer;
        let ghost mviews0 = mviews;
        proof {
            mviews = mviews.push(contentv);
        }

        // The merged section and its loadable segment.
        let is_text = crate::read::bytes_eq(
            storage.sections[i].name.as_slice(),
            text_name().as_slice(),
        );
        let shflags: u64 = if is_text {
            c::SHF_ALLOC | c::SHF_EXECINSTR
        } else {
            c::SHF_ALLOC
        };
        let phflags: u32 = if is_text {
            c::PF_X | c::PF_R
        } else {
            c::PF_R | c::PF_W
        };
        proof {
            assert(shflags == spec_section_flags(sti.0));
            assert(phflags == spec_segment_flags(sti.0));
            lemma_shstrtab_names_len(st, i as int);
        }
        let name_idx = writer.add_sh_string(storage.sections[i].name.as_slice());
        proof {
            assert(writer.sections@[1].content@ =~= spec_shstrtab_names(st, i as int + 1));
        }
        let first = storage.sections[i].parts[0];
        let last = storage.sections[i].parts[nparts - 1];
        proof {
            assert(first == sti.1[0]);
            assert(last == sti.1[nparts - 1]);
            if nparts >= 2 {
                assert(sti.1[0].base.0 + sti.1[0].size <= sti.1[nparts - 1].base.0);
            }
        }
        let filesz = content.len() as u64;
        let memsz = last.base.0 + last.size - first.base.0;
        let align0 = first.align;
        let sec_idx = match writer.add_section(
            crate::write::Section {
                name: name_idx,
                ty: c::ShType(c::SHT_PROGBITS),
                flags: shflags,
                fixed_entsize: None,
                addr_align: Some(align0),
                content,
            },
        ) {
            Ok(idx) => idx,
            Err(e) => {
                // At most five sections ever exist here, so the 16-bit
                // ordinal space cannot overflow.
                proof {
                    assert(false);
                }
                return Err(LinkError::Write(e));
            },
        };
        writer.add_program_header(
            crate::write::ProgramHeader {
                ty: c::PhType(c::PT_LOAD),
                flags: c::PhFlags(phflags),
                offset: crate::write::SectionRelativeAbsoluteAddr {
                    section: sec_idx,
                    rel_offset: crate::Offset(0),
                },
                vaddr: crate::Addr(first.base.0),
                paddr: crate::Addr(first.base.0),
                filesz,
                memsz,
                align: DEFAULT_PAGE_ALIGN,
            },
        );
        proof {
            assert(spec_linked_section(writer, st, mviews, i as int));
            assert(spec_linked_ph(writer, st, mviews, i as int));
            assert forall|jj: int| 0 <= jj < i implies #[trigger] spec_linked_section(
                writer,
                st,
                mviews,
                jj,
            ) by {
                assert(spec_linked_section(w0, st, mviews0, jj));
                assert(writer.sections@[2 + jj] == w0.sections@[2 + jj]);
                assert(mviews[jj] == mviews0[jj]);
            }
            assert forall|jj: int| 0 <= jj < i implies #[trigger] spec_linked_ph(
                writer,
                st,
                mviews,
                jj,
            ) by {
                assert(spec_linked_ph(w0, st, mviews0, jj));
                assert(writer.program_headers@[jj] == w0.program_headers@[jj]);
                assert(mviews[jj] == mviews0[jj]);
            }
        }
        i = i + 1;
    }

    // Resolve the entry point from the well-known entry symbol.
    let start = start_name();
    let ntbl = table.len();
    let mut ti: usize = 0;
    let mut found: Option<usize> = None;
    while ti < ntbl && found.is_none()
        invariant
            ntbl == table@.len(),
            ti <= ntbl,
            tbl == spec_table_view(table@),
            start@ == spec_start_name(),
            found is None ==> spec_tbl_index(tbl, spec_start_name(), 0) == spec_tbl_index(
                tbl,
                spec_start_name(),
                ti as int,
            ),
            found matches Some(x) ==> x < ntbl && spec_tbl_index(tbl, spec_start_name(), 0)
                == Some(x as int),
        decreases ntbl - ti, (if found is None { 1int } else { 0int }),
    {
        if crate::read::bytes_eq(table[ti].name.as_slice(), start.as_slice()) {
            proof {
                assert(tbl[ti as int].0 == spec_start_name());
            }
            found = Some(ti);
        } else {
            proof {
                assert(tbl[ti as int].0 == table@[ti as int].name@);
            }
            ti = ti + 1;
        }
    }
    let entry_sym_idx = match found {
        Some(x) => x,
        None => {
            return Err(LinkError::EntrySymbolUndefined);
        },
    };
    let def = match table[entry_sym_idx].definition {
        Some(d) => d,
        None => {
            return Err(LinkError::EntrySymbolUndefined);
        },
    };
    proof {
        assert(tbl[entry_sym_idx as int].1 == Some(def));
        assert(def.location.file.0 < nfiles);
        assert(files@[def.location.file.0 as int].elf.data@ == datas[def.location.file.0 as int]);
    }
    let elf = files[def.location.file.0].elf;
    let shdr = match elf.section_header(def.location.section) {
        Ok(sh) => sh,
        Err(e) => {
            return Err(LinkError::Read(e));
        },
    };
    let sname = match elf.sh_string(shdr.name) {
        Ok(s) => s,
        Err(e) => {
            return Err(LinkError::Read(e));
        },
    };
    let mut si: usize = 0;
    let mut sfound: Option<usize> = None;
    while si < nsec && sfound.is_none()
        invariant
            nsec == storage.sections@.len(),
            st == crate::storage::spec_storage_view(storage.sections@),
            st.len() == nsec,
            si <= nsec,
            sfound is None ==> spec_storage_index(st, sname@, 0) == spec_storage_index(
                st,
                sname@,
                si as int,
            ),
            sfound matches Some(x) ==> x < nsec && spec_storage_index(st, sname@, 0) == Some(
                x as int,
            ),
        decreases nsec - si, (if sfound is None { 1int } else { 0int }),
    {
        if crate::read::bytes_eq(storage.sections[si].name.as_slice(), sname) {
            proof {
                assert(st[si as int].0 == sname@);
            }
            sfound = Some(si);
        } else {
            proof {
                assert(st[si as int].0 == storage.sections@[si as int].name@);
            }
            si = si + 1;
        }
    }
    let sidx = match sfound {
        Some(x) => x,
        None => {
            return Err(LinkError::EntrySectionNotAllocated);
        },
    };
    let nparts2 = storage.sections[sidx].parts.len();
    let mut pi: usize = 0;
    let mut pfound: Option<usize> = None;
    while pi < nparts2 && pfound.is_none()
        invariant
            nsec == storage.sections@.len(),
            st == crate::storage::spec_storage_view(storage.sections@),
            st.len() == nsec,
            sidx < nsec,
            nparts2 == st[sidx as int].1.len(),
            storage.sections@[sidx as int].parts@ == st[sidx as int].1,
            pi <= nparts2,
            pfound is None ==> spec_part_for_file(st[sidx as int].1, def.location.file, 0)
                == spec_part_for_file(st[sidx as int].1, def.location.file, pi as int),
            pfound matches Some(x) ==> x < nparts2 && spec_part_for_file(
                st[sidx as int].1,
                def.location.file,
                0,
            ) == Some(x as int),
        decreases nparts2 - pi, (if pfound is None { 1int } else { 0int }),
    {
        if storage.sections[sidx].parts[pi].file.0 == def.location.file.0 {
            proof {
                assert(st[sidx as int].1[pi as int].file == def.location.file);
            }
            pfound = Some(pi);
        } else {
            pi = pi + 1;
        }
    }
    let pidx = match pfound {
        Some(x) => x,
        None => {
            return Err(LinkError::EntrySectionNotAllocated);
        },
    };
    let base = storage.sections[sidx].parts[pidx].base.0;
    if def.value.0 > u64::MAX - base {
        return Err(LinkError::AddressOverflow);
    }
    let entry_addr = base + def.value.0;
    let ghost wpre = writer;
    writer.set_entry(crate::Addr(entry_addr));
    proof {
        assert(spec_entry_addr(datas, st, tbl) == LinkOutcome::<u64>::Done(entry_addr));
        assert(writer.sections@ == wpre.sections@);
        assert(writer.program_headers@ == wpre.program_headers@);
        assert forall|jj: int| 0 <= jj < st.len() implies #[trigger] spec_linked_section(
            writer,
            st,
            mviews,
            jj,
        ) by {
            assert(spec_linked_section(wpre, st, mviews, jj));
        }
        assert forall|jj: int| 0 <= jj < st.len() implies #[trigger] spec_linked_ph(
            writer,
            st,
            mviews,
            jj,
        ) by {
            assert(spec_linked_ph(wpre, st, mviews, jj));
        }
        assert(spec_linked_writer(writer, st, mviews, entry_addr));
        assert(spec_link(datas, ids) == LinkOutcome::<(
            crate::storage::StorageModel,
            TableModel,
            Seq<Seq<u8>>,
            u64,
        )>::Done((st, tbl, mviews, entry_addr)));
    }

    // Serialize, after checking that the layout fits this machine.
    if !writer.wf_check() {
        proof {
            assert forall|w2: crate::write::ElfWriter| #[trigger] spec_linked_writer(
                w2,
                st,
                mviews,
                entry_addr,
            ) implies !crate::write::spec_writer_wf(w2) by {
                lemma_linked_wf_congruent(writer, w2, st, mviews, entry_addr);
            }
        }
        return Err(LinkError::AddressOverflow);
    }
    match writer.write() {
        Ok(out) => {
            proof {
                assert(spec_linked_writer(writer, st, mviews, entry_addr)
                    && crate::write::spec_writer_wf(writer) && out@ == crate::write::spec_write_bytes(
                    writer,
                ) && out@.len() == crate::write::spec_end_offset(writer));
                assert(spec_link_ok(out@, st, mviews, entry_addr));
            }
            Ok(out)
        },
        Err(e) => {
            // Both table counts are far below the 16-bit limits.
            proof {
                assert(false);
            }
            Err(LinkError::Write(e))
        },
    }
}


// ------------------
// Laws of symbol resolution
// ------------------

/// Pushing an absent name makes it the name's first (and only) entry.
pub proof fn lemma_tbl_index_push_absent(t: TableModel, name: Seq<u8>, e: SymEntry, i: int)
    requires
        0 <= i <= t.len(),
        spec_tbl_index(t, name, i) is None,
        e.0 == name,
    ensures
        spec_tbl_index(t.push(e), name, i) == Some(t.len() as int),
    decreases t.len() - i,
{
    if i < t.len() {
        lemma_tbl_index_push_absent(t, name, e, i + 1);
    }
}

/// Resolution is a function of the input bytes and ordinals alone: two
/// byte-identical input sets resolve to the same table, whatever else
/// differs between the runs. There is no ordering-dependent or per-process
/// state to leak between invocations.
pub proof fn law_resolution_idempotent<'a, 'b>(files1: Seq<ElfFile<'a>>, files2: Seq<ElfFile<'b>>)
    requires
        spec_file_datas(files1) == spec_file_datas(files2),
        spec_file_ids(files1) == spec_file_ids(files2),
    ensures
        spec_resolve_symbols(spec_file_datas(files1), spec_file_ids(files1))
            == spec_resolve_symbols(spec_file_datas(files2), spec_file_ids(files2)),
{
}

/// The law of duplicate definitions: once a name is defined, a second
/// definition of it is refused, and the refusal names the file that holds
/// the first definition and the file that brought the second.
pub proof fn law_duplicate_definition(
    t: TableModel,
    name: Seq<u8>,
    d1: SymbolDefinition,
    d2: SymbolDefinition,
    f2: FileId,
)
    requires
        spec_tbl_index(t, name, 0) is None,
    ensures
        spec_resolve_one(t, name, Some(d1), d1.location.file) == LinkOutcome::<TableModel>::Done(
            t.push((name, Some(d1))),
        ),
        spec_resolve_one(t.push((name, Some(d1))), name, Some(d2), f2)
            == LinkOutcome::<TableModel>::Duplicate(name, d1.location.file, f2),
{
    lemma_tbl_index_push_absent(t, name, (name, Some(d1)), 0);
}

/// The law of references and definitions: for a name not yet in the table,
/// a bare reference followed by a definition and a definition followed by a
/// bare reference yield the same table, so whether the referencing file
/// comes before or after the defining one does not gate resolution.
pub proof fn law_reference_then_definition(
    t: TableModel,
    name: Seq<u8>,
    d: SymbolDefinition,
    f1: FileId,
    f2: FileId,
)
    requires
        spec_tbl_index(t, name, 0) is None,
    ensures
        ({
            let ref_first = spec_resolve_one(t, name, None, f1);
            &&& ref_first == LinkOutcome::<TableModel>::Done(t.push((name, None)))
            &&& spec_resolve_one(t.push((name, None)), name, Some(d), f2)
                == LinkOutcome::<TableModel>::Done(t.push((name, Some(d))))
        }),
        ({
            let def_first = spec_resolve_one(t, name, Some(d), f2);
            &&& def_first == LinkOutcome::<TableModel>::Done(t.push((name, Some(d))))
            &&& spec_resolve_one(t.push((name, Some(d))), name, None, f1)
                == LinkOutcome::<TableModel>::Done(t.push((name, Some(d))))
        }),
{
    lemma_tbl_index_push_absent(t, name, (name, None), 0);
    lemma_tbl_index_push_absent(t, name, (name, Some(d)), 0);
    assert(t.push((name, Option::<SymbolDefinition>::None)).update(
        t.len() as int,
        (name, Some(d)),
    ) =~= t.push((name, Some(d))));
}

/// Names in the table are unique.
pub open spec fn spec_tbl_names_unique(t: TableModel) -> bool {
    forall|i: int, j: int| 0 <= i < j < t.len() ==> (#[trigger] t[i]).0 != (#[trigger] t[j]).0
}

/// A name the scan missed is on no entry.
pub proof fn lemma_tbl_index_none(t: TableModel, name: Seq<u8>, i: int, j: int)
    requires
        spec_tbl_index(t, name, i) is None,
        0 <= i <= j < t.len(),
    ensures
        t[j].0 != name,
    decreases j - i,
{
    if i < j {
        lemma_tbl_index_none(t, name, i + 1, j);
    }
}

/// One resolution step keeps table names unique.
pub proof fn lemma_resolve_one_unique(
    t: TableModel,
    name: Seq<u8>,
    def: Option<SymbolDefinition>,
    cur: FileId,
)
    requires
        spec_tbl_names_unique(t),
    ensures
        spec_resolve_one(t, name, def, cur) matches LinkOutcome::Done(t2)
            ==> spec_tbl_names_unique(t2) && t2.len() >= t.len(),
{
    match spec_tbl_index(t, name, 0) {
        Some(i) => {
            lemma_tbl_index_some(t, name, 0, i);
        },
        None => {
            assert forall|j: int| 0 <= j < t.len() implies t[j].0 != name by {
                lemma_tbl_index_none(t, name, 0, j);
            }
        },
    }
}

/// Resolution over one file keeps table names unique.
pub proof fn lemma_resolve_file_unique(
    d: Seq<u8>,
    id: FileId,
    syms: Seq<Sym>,
    j: int,
    t: TableModel,
)
    requires
        spec_tbl_names_unique(t),
        0 <= j,
    ensures
        spec_resolve_file(d, id, syms, j, t) matches LinkOutcome::Done(t2)
            ==> spec_tbl_names_unique(t2),
    decreases syms.len() - j,
{
    if 0 <= j < syms.len() {
        if spec_sym_skipped(syms[j]) {
            lemma_resolve_file_unique(d, id, syms, j + 1, t);
        } else {
            match crate::read::spec_string(d, syms[j].name) {
                crate::read::ScanOutcome::Found(nm) => {
                    lemma_resolve_one_unique(t, nm, spec_sym_def(id, syms[j]), id);
                    match spec_resolve_one(t, nm, spec_sym_def(id, syms[j]), id) {
                        LinkOutcome::Done(t2) => {
                            lemma_resolve_file_unique(d, id, syms, j + 1, t2);
                        },
                        _ => {},
                    }
                },
                _ => {},
            }
        }
    }
}

/// The law of the global symbol table: a table built by resolution maps
/// each name to at most one entry.
pub proof fn law_table_names_unique(datas: Seq<Seq<u8>>, ids: Seq<FileId>, f: int, t: TableModel)
    requires
        spec_tbl_names_unique(t),
        0 <= f,
    ensures
        spec_resolve(datas, ids, f, t) matches LinkOutcome::Done(t2) ==> spec_tbl_names_unique(t2),
    decreases datas.len() - f,
{
    if 0 <= f < datas.len() {
        match crate::read::spec_symbols(datas[f]) {
            Ok(syms) => {
                lemma_resolve_file_unique(datas[f], ids[f], syms, 0, t);
                match spec_resolve_file(datas[f], ids[f], syms, 0, t) {
                    LinkOutcome::Done(t2) => {
                        law_table_names_unique(datas, ids, f + 1, t2);
                    },
                    _ => {},
                }
            },
            _ => {},
        }
    }
}



/// Two writers shaped by the same plan, contents and entry are accepted by
/// the layout pass together or not at all.
pub proof fn lemma_linked_wf_congruent(
    w1: crate::write::ElfWriter,
    w2: crate::write::ElfWriter,
    st: crate::storage::StorageModel,
    merged: Seq<Seq<u8>>,
    entry: u64,
)
    requires
        spec_linked_writer(w1, st, merged, entry),
        spec_linked_writer(w2, st, merged, entry),
    ensures
        crate::write::spec_writer_wf(w1) == crate::write::spec_writer_wf(w2),
{
    assert forall|j: int|
        0 <= j < w1.sections@.len() implies (#[trigger] w1.sections@[j]).content@.len()
        == w2.sections@[j].content@.len() && w1.sections@[j].addr_align
        == w2.sections@[j].addr_align by {
        if j >= 2 {
            assert(spec_linked_section(w1, st, merged, j - 2));
            assert(spec_linked_section(w2, st, merged, j - 2));
        }
    }
    assert forall|j: int|
        0 <= j < w1.program_headers@.len() implies (#[trigger] w1.program_headers@[j]).offset
        == w2.program_headers@[j].offset && w1.program_headers@[j].align
        == w2.program_headers@[j].align by {
        assert(spec_linked_ph(w1, st, merged, j));
        assert(spec_linked_ph(w2, st, merged, j));
    }
    crate::write::lemma_wf_congruent(w1, w2);
}

/// The law of the linked image: the bytes `link` produces parse back as a
/// well-formed executable whose header carries the computed entry address,
/// the executable file type, the one supported machine, and one section
/// header per merged section beyond the two fixed ones. With the round-trip
/// law of the writer, every merged section's name, header and content
/// reparse exactly as emitted.
pub proof fn law_linked_image_reparses(
    w: crate::write::ElfWriter,
    st: crate::storage::StorageModel,
    merged: Seq<Seq<u8>>,
    entry: u64,
)
    requires
        spec_linked_writer(w, st, merged, entry),
        crate::write::spec_writer_wf(w),
        st.len() <= 0xfffd,
    ensures
        ({
            let out = crate::write::spec_write_bytes(w);
            &&& crate::read::spec_reader_ok(out)
            &&& (crate::read::spec_header(out) matches Ok(h) && h.entry == crate::Addr(entry)
                && h.ty == c::Type(c::ET_EXEC) && h.machine == c::Machine(c::EM_X86_64) && h.shnum
                == 2 + st.len() && h.phnum == st.len())
            &&& crate::read::spec_sh_str_table(out) == Ok::<Seq<u8>, crate::read::ElfReadError>(
                w.sections@[crate::write::SH_STRTAB as int].content@,
            )
        }),
{
    assert forall|i: int|
        0 <= i < w.sections@.len() implies ((#[trigger] w.sections@[i]).ty.0 != c::SHT_NOBITS
        || w.sections@[i].content@.len() == 0) by {
        if i >= 2 {
            assert(spec_linked_section(w, st, merged, i - 2));
        }
    }
    crate::write::law_write_read_round_trip(w);
}


/// One step never disturbs an already-defined entry.
pub proof fn lemma_resolve_one_persists(
    t: TableModel,
    name: Seq<u8>,
    def: Option<SymbolDefinition>,
    cur: FileId,
    i: int,
)
    requires
        0 <= i < t.len(),
        t[i].1 is Some,
    ensures
        spec_resolve_one(t, name, def, cur) matches LinkOutcome::Done(t2) ==> i < t2.len()
            && t2[i] == t[i],
{
    match spec_tbl_index(t, name, 0) {
        Some(k) => {
            lemma_tbl_index_some(t, name, 0, k);
        },
        None => {},
    }
}

/// One file's resolution never disturbs an already-defined entry.
pub proof fn lemma_resolve_file_persists(
    d: Seq<u8>,
    id: FileId,
    syms: Seq<Sym>,
    j: int,
    t: TableModel,
    i: int,
)
    requires
        0 <= i < t.len(),
        t[i].1 is Some,
        0 <= j,
    ensures
        spec_resolve_file(d, id, syms, j, t) matches LinkOutcome::Done(t2) ==> i < t2.len()
            && t2[i] == t[i],
    decreases syms.len() - j,
{
    if 0 <= j < syms.len() {
        if spec_sym_skipped(syms[j]) {
            lemma_resolve_file_persists(d, id, syms, j + 1, t, i);
        } else {
            match crate::read::spec_string(d, syms[j].name) {
                crate::read::ScanOutcome::Found(nm) => {
                    lemma_resolve_one_persists(t, nm, spec_sym_def(id, syms[j]), id, i);
                    match spec_resolve_one(t, nm, spec_sym_def(id, syms[j]), id) {
                        LinkOutcome::Done(t2) => {
                            lemma_resolve_file_persists(d, id, syms, j + 1, t2, i);
                        },
                        _ => {},
                    }
                },
                _ => {},
            }
        }
    }
}

/// The law of definition stability: once a symbol is defined, no later
/// input file can change or drop that definition; a competing definition
/// aborts the link instead. A successful resolution's table therefore
/// carries, for each defined name, the one definition that was recorded
/// first.
pub proof fn law_definitions_persist(
    datas: Seq<Seq<u8>>,
    ids: Seq<FileId>,
    f: int,
    t: TableModel,
    i: int,
)
    requires
        0 <= i < t.len(),
        t[i].1 is Some,
        0 <= f,
    ensures
        spec_resolve(datas, ids, f, t) matches LinkOutcome::Done(t2) ==> i < t2.len() && t2[i]
            == t[i],
    decreases datas.len() - f,
{
    if 0 <= f < datas.len() {
        match crate::read::spec_symbols(datas[f]) {
            Ok(syms) => {
                lemma_resolve_file_persists(datas[f], ids[f], syms, 0, t, i);
                match spec_resolve_file(datas[f], ids[f], syms, 0, t) {
                    LinkOutcome::Done(t2) => {
                        law_definitions_persist(datas, ids, f + 1, t2, i);
                    },
                    _ => {},
                }
            },
            _ => {},
        }
    }
}


/// Whether one symbol record is a definition of `nm` that resolution will
/// process: not a section symbol, its name resolves to `nm`, and it has an
/// owning section.
pub open spec fn spec_entry_defines(d: Seq<u8>, sym: Sym, nm: Seq<u8>) -> bool {
    &&& !spec_sym_skipped(sym)
    &&& crate::read::spec_string(d, sym.name) == crate::read::ScanOutcome::<Seq<u8>>::Found(nm)
    &&& sym.shndx.0 != c::SHN_UNDEF
}

/// Whether input file `f` defines `nm`: its symbol table reads back and its
/// record `j` is a definition of `nm`.
pub open spec fn spec_file_defines(d: Seq<u8>, j: int, nm: Seq<u8>) -> bool {
    &&& crate::read::spec_symbols(d) is Ok
    &&& 0 <= j < crate::read::spec_symbols(d)->Ok_0.len()
    &&& spec_entry_defines(d, crate::read::spec_symbols(d)->Ok_0[j], nm)
}

/// With unique names, the scan finds exactly the entry that carries the
/// name.
pub proof fn lemma_tbl_index_of_unique(t: TableModel, nm: Seq<u8>, k: int, i: int)
    requires
        spec_tbl_names_unique(t),
        0 <= k <= i < t.len(),
        t[i].0 == nm,
    ensures
        spec_tbl_index(t, nm, k) == Some(i),
    decreases i - k,
{
    if k < i {
        lemma_tbl_index_of_unique(t, nm, k + 1, i);
    }
}

/// A file that defines `nm` leaves `nm` defined in any table it completes.
pub proof fn lemma_file_records_definition(
    d: Seq<u8>,
    id: FileId,
    syms: Seq<Sym>,
    j: int,
    jd: int,
    t: TableModel,
    nm: Seq<u8>,
)
    requires
        0 <= j <= jd < syms.len(),
        spec_entry_defines(d, syms[jd], nm),
    ensures
        spec_resolve_file(d, id, syms, j, t) matches LinkOutcome::Done(t2) ==> exists|i: int|
            0 <= i < t2.len() && (#[trigger] t2[i]).0 == nm && t2[i].1 is Some,
    decreases jd - j,
{
    if j < jd {
        if spec_sym_skipped(syms[j]) {
            lemma_file_records_definition(d, id, syms, j + 1, jd, t, nm);
        } else {
            match crate::read::spec_string(d, syms[j].name) {
                crate::read::ScanOutcome::Found(nm2) => {
                    match spec_resolve_one(t, nm2, spec_sym_def(id, syms[j]), id) {
                        LinkOutcome::Done(t2) => {
                            lemma_file_records_definition(d, id, syms, j + 1, jd, t2, nm);
                        },
                        _ => {},
                    }
                },
                _ => {},
            }
        }
    } else {
        let def = spec_sym_def(id, syms[jd]);
        match spec_resolve_one(t, nm, def, id) {
            LinkOutcome::Done(t2) => {
                let i = match spec_tbl_index(t, nm, 0) {
                    None => t.len() as int,
                    Some(k) => k,
                };
                match spec_tbl_index(t, nm, 0) {
                    Some(k) => {
                        lemma_tbl_index_some(t, nm, 0, k);
                    },
                    None => {},
                }
                assert(0 <= i < t2.len() && t2[i].0 == nm && t2[i].1 is Some);
                lemma_resolve_file_persists(d, id, syms, jd + 1, t2, i);
            },
            _ => {},
        }
    }
}

/// A file that defines an already-defined `nm` cannot complete.
pub proof fn lemma_second_definition_fails(
    d: Seq<u8>,
    id: FileId,
    syms: Seq<Sym>,
    j: int,
    jd: int,
    t: TableModel,
    nm: Seq<u8>,
    i: int,
)
    requires
        0 <= j <= jd < syms.len(),
        spec_entry_defines(d, syms[jd], nm),
        spec_tbl_names_unique(t),
        0 <= i < t.len(),
        t[i].0 == nm,
        t[i].1 is Some,
    ensures
        !(spec_resolve_file(d, id, syms, j, t) is Done),
    decreases jd - j,
{
    if j == jd {
        lemma_tbl_index_of_unique(t, nm, 0, i);
    } else {
        if spec_sym_skipped(syms[j]) {
            lemma_second_definition_fails(d, id, syms, j + 1, jd, t, nm, i);
        } else {
            match crate::read::spec_string(d, syms[j].name) {
                crate::read::ScanOutcome::Found(nm2) => {
                    lemma_resolve_one_persists(t, nm2, spec_sym_def(id, syms[j]), id, i);
                    lemma_resolve_one_unique(t, nm2, spec_sym_def(id, syms[j]), id);
                    match spec_resolve_one(t, nm2, spec_sym_def(id, syms[j]), id) {
                        LinkOutcome::Done(t2) => {
                            lemma_second_definition_fails(d, id, syms, j + 1, jd, t2, nm, i);
                        },
                        _ => {},
                    }
                },
                _ => {},
            }
        }
    }
}

/// From a table that already holds `nm` defined, resolution cannot pass the
/// second defining file.
proof fn lemma_resolve_with_defined_fails(
    datas: Seq<Seq<u8>>,
    ids: Seq<FileId>,
    f: int,
    t: TableModel,
    f2: int,
    j2: int,
    nm: Seq<u8>,
    i: int,
)
    requires
        0 <= f <= f2 < datas.len(),
        spec_file_defines(datas[f2], j2, nm),
        spec_tbl_names_unique(t),
        0 <= i < t.len(),
        t[i].0 == nm,
        t[i].1 is Some,
    ensures
        !(spec_resolve(datas, ids, f, t) is Done),
    decreases f2 - f,
{
    match crate::read::spec_symbols(datas[f]) {
        Ok(syms) => {
            if f == f2 {
                lemma_second_definition_fails(datas[f], ids[f], syms, 0, j2, t, nm, i);
            } else {
                lemma_resolve_file_persists(datas[f], ids[f], syms, 0, t, i);
                lemma_resolve_file_unique(datas[f], ids[f], syms, 0, t);
                match spec_resolve_file(datas[f], ids[f], syms, 0, t) {
                    LinkOutcome::Done(t2) => {
                        lemma_resolve_with_defined_fails(datas, ids, f + 1, t2, f2, j2, nm, i);
                    },
                    _ => {},
                }
            }
        },
        _ => {},
    }
}

/// The law of duplicate definitions, globally: when two input files each
/// hold a definition of the same global symbol name, resolving the whole
/// input set never succeeds, wherever in their symbol tables the two
/// definitions sit.
pub proof fn law_two_files_defining_fail(
    datas: Seq<Seq<u8>>,
    ids: Seq<FileId>,
    f1: int,
    j1: int,
    f2: int,
    j2: int,
    nm: Seq<u8>,
)
    requires
        0 <= f1 < f2 < datas.len(),
        spec_file_defines(datas[f1], j1, nm),
        spec_file_defines(datas[f2], j2, nm),
    ensures
        !(spec_resolve_symbols(datas, ids) is Done),
{
    lemma_resolve_prefix_then_fails(datas, ids, 0, Seq::empty(), f1, j1, f2, j2, nm);
}

/// Helper for the global law: run resolution up to the first defining file,
/// then apply the second-definition argument.
proof fn lemma_resolve_prefix_then_fails(
    datas: Seq<Seq<u8>>,
    ids: Seq<FileId>,
    f: int,
    t: TableModel,
    f1: int,
    j1: int,
    f2: int,
    j2: int,
    nm: Seq<u8>,
)
    requires
        0 <= f <= f1 < f2 < datas.len(),
        spec_file_defines(datas[f1], j1, nm),
        spec_file_defines(datas[f2], j2, nm),
        spec_tbl_names_unique(t),
    ensures
        !(spec_resolve(datas, ids, f, t) is Done),
    decreases f1 - f,
{
    match crate::read::spec_symbols(datas[f]) {
        Ok(syms) => {
            lemma_resolve_file_unique(datas[f], ids[f], syms, 0, t);
            if f == f1 {
                lemma_file_records_definition(datas[f], ids[f], syms, 0, j1, t, nm);
                match spec_resolve_file(datas[f], ids[f], syms, 0, t) {
                    LinkOutcome::Done(t2) => {
                        let i = choose|i: int|
                            0 <= i < t2.len() && (#[trigger] t2[i]).0 == nm && t2[i].1 is Some;
                        lemma_resolve_with_defined_fails(datas, ids, f + 1, t2, f2, j2, nm, i);
                    },
                    _ => {},
                }
            } else {
                match spec_resolve_file(datas[f], ids[f], syms, 0, t) {
                    LinkOutcome::Done(t2) => {
                        lemma_resolve_prefix_then_fails(datas, ids, f + 1, t2, f1, j1, f2, j2, nm);
                    },
                    _ => {},
                }
            }
        },
        _ => {},
    }
}

} // verus!
