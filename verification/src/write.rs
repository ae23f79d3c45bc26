//! The ELF64 writer: an incrementally built output image (header template,
//! sections, symbolic program headers) and the layout pass that assigns
//! absolute file offsets and serializes the final bytes.

use vstd::prelude::*;
use crate::align::{lemma_align_up_props, spec_align_up, spec_pow2, AlignExt};
use crate::codec::{ser_header, ser_phdr, ser_shdr, push_bytes, push_zeros, spec_header_bytes,
    spec_phdr_bytes, spec_shdr_bytes, spec_zeros};
use crate::consts as c;
use crate::read::{ElfHeader, ElfIdent, Phdr, Shdr, ShStringIdx};
use crate::{Addr, Offset};

verus! {

/// Which 16-bit count field of the output overflowed.
#[derive(Debug, Clone, Copy, PartialEq, Eq, Structural)]
pub enum TableKind {
    Sections,
    ProgramHeaders,
}

#[derive(Debug, Clone, PartialEq, Eq)]
pub enum WriteElfError {
    /// Too many entries for a 16-bit count field.
    TooMany(TableKind),
}

pub type WriteResult<T> = Result<T, WriteElfError>;

/// The caller-supplied part of the output header.
#[derive(Debug, Clone)]
pub struct Header {
    pub ident: ElfIdent,
    pub ty: c::Type,
    pub machine: c::Machine,
}

/// A file position expressed relative to a section: the absolute offset is
/// only known after layout, so program headers keep their offsets symbolic
/// until `write` resolves them.
#[derive(Debug, Clone, Copy)]
pub struct SectionRelativeAbsoluteAddr {
    pub section: c::SectionIdx,
    pub rel_offset: Offset,
}

/// One output section: its name (an index into the section name table), its
/// type, flags, optional fixed entry size, optional required alignment, and
/// its content bytes.
#[derive(Debug, Clone)]
pub struct Section {
    pub name: ShStringIdx,
    pub ty: c::ShType,
    pub flags: u64,
    pub fixed_entsize: Option<u64>,
    pub addr_align: Option<u64>,
    pub content: Vec<u8>,
}

/// One output segment descriptor, with its file offset still symbolic.
#[derive(Debug, Clone)]
pub struct ProgramHeader {
    pub ty: c::PhType,
    pub flags: c::PhFlags,
    pub offset: SectionRelativeAbsoluteAddr,
    pub vaddr: Addr,
    pub paddr: Addr,
    pub filesz: u64,
    pub memsz: u64,
    pub align: u64,
}

/// An incrementally built output image.
#[derive(Debug, Clone)]
pub struct ElfWriter {
    pub header: ElfHeader,
    pub sections: Vec<Section>,
    pub program_headers: Vec<ProgramHeader>,
}

/// The ordinal of the always-present section name string table.
pub const SH_STRTAB: usize = 1;

/// The initial content of the section name table: the nul string and the
/// table's own name ".shstrtab".
pub open spec fn spec_initial_shstrtab() -> Seq<u8> {
    seq![0x00u8, 0x2eu8, 0x73u8, 0x68u8, 0x73u8, 0x74u8, 0x72u8, 0x74u8, 0x61u8, 0x62u8, 0x00u8]
}

// ------------------
// Layout specification
// ------------------

/// The alignment a section's content is placed at: its declared alignment,
/// or the section-table default of one.
pub open spec fn spec_section_align(s: Section) -> int {
    match s.addr_align {
        Some(a) => a as int,
        None => 1,
    }
}

/// Where section contents start: after the header, the program header table
/// and the section header table.
pub open spec fn spec_contents_start(w: ElfWriter) -> int {
    64 + 56 * w.program_headers@.len() as int + 64 * w.sections@.len() as int
}

/// The layout cursor after the first `i` sections have been placed: an empty
/// section leaves the cursor alone, any other is aligned up and then skipped
/// over.
pub open spec fn spec_cursor(w: ElfWriter, i: int) -> int
    decreases i,
{
    if i <= 0 {
        spec_contents_start(w)
    } else {
        let cur = spec_cursor(w, i - 1);
        let s = w.sections@[i - 1];
        if s.content@.len() == 0 {
            cur
        } else {
            spec_align_up(cur, spec_section_align(s)) + s.content@.len()
        }
    }
}

/// The file offset assigned to section `i`'s content; a zero-size section is
/// assigned offset zero and contributes no bytes.
pub open spec fn spec_content_offset(w: ElfWriter, i: int) -> int {
    if w.sections@[i].content@.len() == 0 {
        0
    } else {
        spec_align_up(spec_cursor(w, i), spec_section_align(w.sections@[i]))
    }
}

/// The total length of the output: the layout cursor after every section.
pub open spec fn spec_end_offset(w: ElfWriter) -> int {
    spec_cursor(w, w.sections@.len() as int)
}

/// Every section's alignment is a power of two (or absent).
pub open spec fn spec_aligns_ok(w: ElfWriter) -> bool {
    forall|i: int|
        0 <= i < w.sections@.len() ==> match (#[trigger] w.sections@[i]).addr_align {
            Some(a) => spec_pow2(a),
            None => true,
        }
}

/// Every program header names an existing section and its relative offset
/// cannot overflow once resolved.
pub open spec fn spec_phs_ok(w: ElfWriter) -> bool {
    forall|i: int|
        0 <= i < w.program_headers@.len() ==> {
            let ph = #[trigger] w.program_headers@[i];
            ph.offset.section.0 < w.sections@.len() && ph.offset.rel_offset.0 + spec_end_offset(w)
                <= u64::MAX
        }
}

/// A writer `write` accepts: the null section is present, alignments are
/// powers of two, the layout fits in memory, and program headers are
/// resolvable.
pub open spec fn spec_writer_wf(w: ElfWriter) -> bool {
    &&& w.sections@.len() >= 1
    &&& spec_aligns_ok(w)
    &&& spec_end_offset(w) <= usize::MAX
    &&& spec_phs_ok(w)
}

/// The header as serialized: table counts and offsets patched in.
pub open spec fn spec_patched_header(w: ElfWriter) -> ElfHeader {
    ElfHeader {
        phnum: w.program_headers@.len() as u16,
        shnum: w.sections@.len() as u16,
        phoff: if w.program_headers@.len() > 0 {
            Offset(64)
        } else {
            w.header.phoff
        },
        shoff: if w.sections@.len() > 0 {
            Offset((64 + 56 * w.program_headers@.len()) as u64)
        } else {
            w.header.shoff
        },
        ..w.header
    }
}

/// A program header with its section-relative offset resolved to an absolute
/// file offset.
pub open spec fn spec_resolved_phdr(w: ElfWriter, ph: ProgramHeader) -> Phdr {
    Phdr {
        ty: ph.ty,
        flags: ph.flags,
        offset: Offset(
            (spec_content_offset(w, ph.offset.section.0 as int) + ph.offset.rel_offset.0) as u64,
        ),
        vaddr: ph.vaddr,
        paddr: ph.paddr,
        filesz: ph.filesz,
        memsz: ph.memsz,
        align: ph.align,
    }
}

/// The section header record written for ordinal `i`: ordinal zero is the
/// format-mandated null record, the others carry their assigned offset and
/// content size.
pub open spec fn spec_out_shdr(w: ElfWriter, i: int) -> Shdr {
    if i == 0 {
        spec_null_shdr()
    } else {
        let s = w.sections@[i];
        Shdr {
            name: s.name,
            ty: s.ty,
            flags: c::ShFlags(s.flags),
            addr: Addr(0),
            offset: Offset(spec_content_offset(w, i) as u64),
            size: s.content@.len() as u64,
            link: 0,
            info: 0,
            addralign: 0,
            entsize: match s.fixed_entsize {
                Some(x) => x,
                None => 0,
            },
        }
    }
}

pub open spec fn spec_null_shdr() -> Shdr {
    Shdr {
        name: ShStringIdx(0),
        ty: c::ShType(c::SHT_NULL),
        flags: c::ShFlags(0),
        addr: Addr(0),
        offset: Offset(0),
        size: 0,
        link: 0,
        info: 0,
        addralign: 0,
        entsize: 0,
    }
}

/// The serialized program header table, first `i` entries.
pub open spec fn spec_phs_bytes(w: ElfWriter, i: int) -> Seq<u8>
    decreases i,
{
    if i <= 0 {
        Seq::empty()
    } else {
        spec_phs_bytes(w, i - 1) + spec_phdr_bytes(spec_resolved_phdr(w, w.program_headers@[i - 1]))
    }
}

/// The serialized section header table, first `i` entries.
pub open spec fn spec_shs_bytes(w: ElfWriter, i: int) -> Seq<u8>
    decreases i,
{
    if i <= 0 {
        Seq::empty()
    } else {
        spec_shs_bytes(w, i - 1) + spec_shdr_bytes(spec_out_shdr(w, i - 1))
    }
}

/// The serialized section contents, first `i` sections: each non-empty
/// section contributes the padding up to its assigned offset and then its
/// bytes.
pub open spec fn spec_contents_bytes(w: ElfWriter, i: int) -> Seq<u8>
    decreases i,
{
    if i <= 0 {
        Seq::empty()
    } else {
        let prev = spec_contents_bytes(w, i - 1);
        let s = w.sections@[i - 1];
        if s.content@.len() == 0 {
            prev
        } else {
            prev + spec_zeros(
                spec_content_offset(w, i - 1) - (spec_contents_start(w) + prev.len()),
            ) + s.content@
        }
    }
}

/// The whole output image: header, program headers, section headers, then
/// the padded section contents.
pub open spec fn spec_write_bytes(w: ElfWriter) -> Seq<u8> {
    spec_header_bytes(spec_patched_header(w)) + spec_phs_bytes(w, w.program_headers@.len() as int)
        + spec_shs_bytes(w, w.sections@.len() as int) + spec_contents_bytes(
        w,
        w.sections@.len() as int,
    )
}

// ------------------
// Layout facts
// ------------------

/// The cursor never moves backwards, and an assigned offset sits between the
/// cursor before and after its section.
pub proof fn lemma_cursor_step(w: ElfWriter, i: int)
    requires
        spec_aligns_ok(w),
        0 <= i < w.sections@.len(),
        spec_contents_start(w) >= 0,
    ensures
        spec_cursor(w, i) <= spec_cursor(w, i + 1),
        spec_cursor(w, i) >= spec_contents_start(w),
        w.sections@[i].content@.len() > 0 ==> {
            &&& spec_cursor(w, i) <= spec_content_offset(w, i)
            &&& spec_content_offset(w, i) < spec_cursor(w, i) + spec_section_align(w.sections@[i])
            &&& spec_content_offset(w, i) + w.sections@[i].content@.len() == spec_cursor(w, i + 1)
            &&& spec_content_offset(w, i) % spec_section_align(w.sections@[i]) == 0
        },
        w.sections@[i].content@.len() == 0 ==> spec_cursor(w, i + 1) == spec_cursor(w, i),
    decreases i,
{
    if i > 0 {
        lemma_cursor_step(w, i - 1);
    }
    let s = w.sections@[i];
    if s.content@.len() > 0 {
        lemma_align_up_props(spec_cursor(w, i), spec_section_align(s));
    }
}

/// The cursor is monotone between any two points.
pub proof fn lemma_cursor_monotone(w: ElfWriter, i: int, j: int)
    requires
        spec_aligns_ok(w),
        0 <= i <= j <= w.sections@.len(),
    ensures
        spec_cursor(w, i) <= spec_cursor(w, j),
        spec_cursor(w, i) >= spec_contents_start(w),
    decreases j - i,
{
    if i == 0 {
        assert(spec_cursor(w, 0) == spec_contents_start(w));
    } else {
        lemma_cursor_step(w, i - 1);
    }
    if i < j {
        lemma_cursor_step(w, i);
        lemma_cursor_monotone(w, i + 1, j);
    }
}

/// The serialized program header table of `i` entries is `56 * i` bytes.
pub proof fn lemma_phs_bytes_len(w: ElfWriter, i: int)
    requires
        i >= 0,
    ensures
        spec_phs_bytes(w, i).len() == 56 * i,
    decreases i,
{
    if i > 0 {
        lemma_phs_bytes_len(w, i - 1);
        crate::codec::lemma_phdr_roundtrip(spec_resolved_phdr(w, w.program_headers@[i - 1]));
    }
}

/// The serialized section header table of `i` entries is `64 * i` bytes.
pub proof fn lemma_shs_bytes_len(w: ElfWriter, i: int)
    requires
        i >= 0,
    ensures
        spec_shs_bytes(w, i).len() == 64 * i,
    decreases i,
{
    if i > 0 {
        lemma_shs_bytes_len(w, i - 1);
        crate::codec::lemma_shdr_roundtrip(spec_out_shdr(w, i - 1));
    }
}

/// The serialized contents of the first `i` sections span exactly from the
/// contents start to the cursor after section `i`.
pub proof fn lemma_contents_bytes_len(w: ElfWriter, i: int)
    requires
        spec_aligns_ok(w),
        0 <= i <= w.sections@.len(),
    ensures
        spec_contents_bytes(w, i).len() == spec_cursor(w, i) - spec_contents_start(w),
    decreases i,
{
    if i > 0 {
        lemma_contents_bytes_len(w, i - 1);
        lemma_cursor_step(w, i - 1);
    }
}

// ------------------
// Alignment entry point
// ------------------

/// Align `n` upwards to `align`, which must be a power of two.
pub fn align_up(n: u64, align: u64) -> (r: u64)
    requires
        spec_pow2(align),
        spec_align_up(n as int, align as int) <= u64::MAX,
    ensures
        r == spec_align_up(n as int, align as int),
{
    n.align_up(align)
}

// ------------------
// The writer
// ------------------

impl ElfWriter {
    /// Start an output image from a header template, with the two
    /// always-present sections: the null section at ordinal zero and the
    /// section name string table at ordinal one, pre-seeded with the nul
    /// string and its own name.
    pub fn new(header: Header) -> (r: ElfWriter)
        ensures
            r.header == (ElfHeader {
                ident: header.ident,
                ty: header.ty,
                machine: header.machine,
                version: 1u32,
                entry: Addr(0x3333333333333333),
                phoff: Offset(0),
                shoff: Offset(0),
                flags: u32::MAX,
                ehsize: 64u16,
                phentsize: 56u16,
                phnum: 0x3333u16,
                shentsize: 64u16,
                shnum: 0x3333u16,
                shstrndex: c::SectionIdx(1),
            }),
            r.sections@.len() == 2,
            r.sections@[0].name == ShStringIdx(0),
            r.sections@[0].ty == c::ShType(c::SHT_NULL),
            r.sections@[0].flags == 0,
            r.sections@[0].fixed_entsize is None,
            r.sections@[0].addr_align is None,
            r.sections@[0].content@ == Seq::<u8>::empty(),
            r.sections@[1].name == ShStringIdx(1),
            r.sections@[1].ty == c::ShType(c::SHT_STRTAB),
            r.sections@[1].flags == 0,
            r.sections@[1].fixed_entsize is None,
            r.sections@[1].addr_align is None,
            r.sections@[1].content@ == spec_initial_shstrtab(),
            r.program_headers@.len() == 0,
    {
        let out_header = ElfHeader {
            ident: header.ident,
            ty: header.ty,
            machine: header.machine,
            version: 1,
            entry: Addr(0x3333333333333333),
            phoff: Offset(0),
            shoff: Offset(0),
            flags: u32::MAX,
            ehsize: 64,
            phentsize: 56,
            phnum: 0x3333,
            shentsize: 64,
            shnum: 0x3333,
            shstrndex: c::SectionIdx(1),
        };
        let null_section = Section {
            name: ShStringIdx(0),
            ty: c::ShType(c::SHT_NULL),
            flags: 0,
            fixed_entsize: None,
            addr_align: None,
            content: Vec::new(),
        };
        let mut shstrtab_content: Vec<u8> = Vec::new();
        shstrtab_content.push(0x00);
        shstrtab_content.push(0x2e);
        shstrtab_content.push(0x73);
        shstrtab_content.push(0x68);
        shstrtab_content.push(0x73);
        shstrtab_content.push(0x74);
        shstrtab_content.push(0x72);
        shstrtab_content.push(0x74);
        shstrtab_content.push(0x61);
        shstrtab_content.push(0x62);
        shstrtab_content.push(0x00);
        proof {
            assert(shstrtab_content@ =~= spec_initial_shstrtab());
        }
        let shstrtab = Section {
            name: ShStringIdx(1),
            ty: c::ShType(c::SHT_STRTAB),
            flags: 0,
            fixed_entsize: None,
            addr_align: None,
            content: shstrtab_content,
        };
        let mut sections: Vec<Section> = Vec::new();
        sections.push(null_section);
        sections.push(shstrtab);
        ElfWriter { header: out_header, sections, program_headers: Vec::new() }
    }

    /// Record the absolute virtual address of the entry point.
    pub fn set_entry(&mut self, entry: Addr)
        ensures
            final(self).header == (ElfHeader { entry, ..old(self).header }),
            final(self).sections == old(self).sections,
            final(self).program_headers == old(self).program_headers,
    {
        self.header.entry = entry;
    }

    /// Append `content` plus a nul terminator to the section name table and
    /// return the index where `content` starts.
    pub fn add_sh_string(&mut self, content: &[u8]) -> (r: ShStringIdx)
        requires
            old(self).sections@.len() >= 2,
            old(self).sections@[SH_STRTAB as int].content@.len() <= u32::MAX,
            old(self).sections@[SH_STRTAB as int].content@.len() + content@.len() + 1
                <= usize::MAX,
        ensures
            r == ShStringIdx(old(self).sections@[SH_STRTAB as int].content@.len() as u32),
            final(self).sections@.len() == old(self).sections@.len(),
            final(self).sections@[SH_STRTAB as int].content@ == old(
                self,
            ).sections@[SH_STRTAB as int].content@ + content@ + seq![0u8],
            final(self).sections@[SH_STRTAB as int].name == old(
                self,
            ).sections@[SH_STRTAB as int].name,
            final(self).sections@[SH_STRTAB as int].ty == old(self).sections@[SH_STRTAB as int].ty,
            final(self).sections@[SH_STRTAB as int].flags == old(
                self,
            ).sections@[SH_STRTAB as int].flags,
            final(self).sections@[SH_STRTAB as int].fixed_entsize == old(
                self,
            ).sections@[SH_STRTAB as int].fixed_entsize,
            final(self).sections@[SH_STRTAB as int].addr_align == old(
                self,
            ).sections@[SH_STRTAB as int].addr_align,
            forall|i: int|
                0 <= i < old(self).sections@.len() && i != SH_STRTAB ==> final(self).sections@[i]
                    == old(self).sections@[i],
            final(self).header == old(self).header,
            final(self).program_headers == old(self).program_headers,
    {
        proof {
            vstd::slice::axiom_spec_len(content);
        }
        let shstrtab = &mut self.sections[SH_STRTAB];
        let idx = shstrtab.content.len();
        push_bytes(&mut shstrtab.content, content);
        shstrtab.content.push(0);
        proof {
            assert(self.sections@ =~= old(self).sections@.update(
                SH_STRTAB as int,
                self.sections@[SH_STRTAB as int],
            ));
        }
        ShStringIdx(idx as u32)
    }

    /// Append a section and return its assigned ordinal; the push happens
    /// even when the ordinal no longer fits the 16-bit section count.
    pub fn add_section(&mut self, section: Section) -> (r: WriteResult<c::SectionIdx>)
        ensures
            final(self).sections@ == old(self).sections@.push(section),
            final(self).header == old(self).header,
            final(self).program_headers == old(self).program_headers,
            old(self).sections@.len() <= 0xffff ==> r == Ok::<c::SectionIdx, WriteElfError>(
                c::SectionIdx(old(self).sections@.len() as u16),
            ),
            old(self).sections@.len() > 0xffff ==> r == Err::<c::SectionIdx, WriteElfError>(
                WriteElfError::TooMany(TableKind::Sections),
            ),
    {
        let len = self.sections.len();
        self.sections.push(section);
        if len <= 0xffff {
            Ok(c::SectionIdx(len as u16))
        } else {
            Err(WriteElfError::TooMany(TableKind::Sections))
        }
    }

    /// Append a segment descriptor with a section-relative offset.
    pub fn add_program_header(&mut self, ph: ProgramHeader)
        ensures
            final(self).program_headers@ == old(self).program_headers@.push(ph),
            final(self).header == old(self).header,
            final(self).sections == old(self).sections,
    {
        self.program_headers.push(ph);
    }

    /// The layout pass: compute every section's absolute file offset, then
    /// serialize header, program headers, section headers and padded section
    /// contents. The output length equals the layout's end offset exactly.
    pub fn write(&self) -> (r: WriteResult<Vec<u8>>)
        requires
            spec_writer_wf(*self),
        ensures
            r matches Ok(out) ==> {
                &&& self.sections@.len() <= 0xffff
                &&& self.program_headers@.len() <= 0xffff
                &&& out@ == spec_write_bytes(*self)
                &&& out@.len() == spec_end_offset(*self)
            },
            r matches Err(e) ==> {
                &&& (self.sections@.len() > 0xffff || self.program_headers@.len() > 0xffff)
                &&& (if self.sections@.len() > 0xffff {
                    e == WriteElfError::TooMany(TableKind::Sections)
                } else {
                    e == WriteElfError::TooMany(TableKind::ProgramHeaders)
                })
            },
    {
        let shn = self.sections.len();
        let phn = self.program_headers.len();
        if shn > 0xffff {
            return Err(WriteElfError::TooMany(TableKind::Sections));
        }
        if phn > 0xffff {
            return Err(WriteElfError::TooMany(TableKind::ProgramHeaders));
        }
        let start: usize = 64 + 56 * phn + 64 * shn;
        proof {
            assert(start == spec_contents_start(*self));
            lemma_cursor_monotone(*self, 0, self.sections@.len() as int);
        }

        // Layout: assign every section's content offset.
        let mut offsets: Vec<usize> = Vec::new();
        let mut cur: usize = start;
        let mut i: usize = 0;
        while i < shn
            invariant
                spec_writer_wf(*self),
                shn == self.sections@.len(),
                i <= shn,
                cur == spec_cursor(*self, i as int),
                offsets@.len() == i,
                forall|j: int| 0 <= j < i ==> offsets@[j] == spec_content_offset(*self, j),
            decreases shn - i,
        {
            proof {
                lemma_cursor_step(*self, i as int);
                lemma_cursor_monotone(*self, i as int + 1, self.sections@.len() as int);
            }
            if self.sections[i].content.len() == 0 {
                offsets.push(0);
            } else {
                let align = match self.sections[i].addr_align {
                    Some(a) => a,
                    None => 1,
                };
                proof {
                    assert((1u64 & 0u64) == 0) by (bit_vector);
                    assert(spec_pow2(align));
                    assert(align == spec_section_align(self.sections@[i as int]));
                }
                let off64 = (cur as u64).align_up(align);
                let off = off64 as usize;
                offsets.push(off);
                cur = off + self.sections[i].content.len();
            }
            i = i + 1;
        }

        // Serialize: header with counts and table offsets patched in.
        let mut header = self.header;
        header.shnum = shn as u16;
        header.phnum = phn as u16;
        if phn > 0 {
            header.phoff = Offset(64);
        }
        if shn > 0 {
            header.shoff = Offset(64 + 56 * (phn as u64));
        }
        proof {
            assert(header == spec_patched_header(*self));
        }
        let mut out: Vec<u8> = Vec::new();
        ser_header(&mut out, &header);

        // Program headers, their offsets resolved against the layout.
        let ghost hdr_bytes = spec_header_bytes(spec_patched_header(*self));
        proof {
            assert(out@ =~= hdr_bytes + spec_phs_bytes(*self, 0));
        }
        let mut i: usize = 0;
        while i < phn
            invariant
                spec_writer_wf(*self),
                shn == self.sections@.len(),
                phn == self.program_headers@.len(),
                offsets@.len() == shn,
                forall|j: int| 0 <= j < shn ==> offsets@[j] == spec_content_offset(*self, j),
                i <= phn,
                out@ == hdr_bytes + spec_phs_bytes(*self, i as int),
                hdr_bytes == spec_header_bytes(spec_patched_header(*self)),
            decreases phn - i,
        {
            proof {
                assert(spec_content_offset(
                    *self,
                    self.program_headers@[i as int].offset.section.0 as int,
                ) <= spec_end_offset(*self)) by {
                    let si = self.program_headers@[i as int].offset.section.0 as int;
                    if self.sections@[si].content@.len() == 0 {
                        lemma_cursor_monotone(*self, 0, self.sections@.len() as int);
                    } else {
                        lemma_cursor_step(*self, si);
                        lemma_cursor_monotone(*self, si + 1, self.sections@.len() as int);
                    }
                }
            }
            let ph = &self.program_headers[i];
            let sidx = ph.offset.section.0 as usize;
            let soff = offsets[sidx];
            let abs = (soff as u64) + ph.offset.rel_offset.0;
            let resolved = Phdr {
                ty: ph.ty,
                flags: ph.flags,
                offset: Offset(abs),
                vaddr: ph.vaddr,
                paddr: ph.paddr,
                filesz: ph.filesz,
                memsz: ph.memsz,
                align: ph.align,
            };
            ser_phdr(&mut out, &resolved);
            proof {
                assert(resolved == spec_resolved_phdr(*self, self.program_headers@[i as int]));
                assert(out@ =~= hdr_bytes + spec_phs_bytes(*self, i as int + 1));
            }
            i = i + 1;
        }
        let ghost phs_bytes = spec_phs_bytes(*self, phn as int);

        // Section headers: the mandated null record, then each section.
        let null_sh = Shdr {
            name: ShStringIdx(0),
            ty: c::ShType(c::SHT_NULL),
            flags: c::ShFlags(0),
            addr: Addr(0),
            offset: Offset(0),
            size: 0,
            link: 0,
            info: 0,
            addralign: 0,
            entsize: 0,
        };
        ser_shdr(&mut out, &null_sh);
        proof {
            reveal_with_fuel(spec_shs_bytes, 2);
            assert(null_sh == spec_out_shdr(*self, 0));
            assert(spec_shs_bytes(*self, 1) =~= spec_shdr_bytes(spec_out_shdr(*self, 0)));
            assert(out@ =~= hdr_bytes + phs_bytes + spec_shs_bytes(*self, 1));
        }
        let mut i: usize = 1;
        while i < shn
            invariant
                spec_writer_wf(*self),
                shn == self.sections@.len(),
                shn <= 0xffff,
                offsets@.len() == shn,
                forall|j: int| 0 <= j < shn ==> offsets@[j] == spec_content_offset(*self, j),
                1 <= i <= shn,
                out@ == hdr_bytes + phs_bytes + spec_shs_bytes(*self, i as int),
                hdr_bytes == spec_header_bytes(spec_patched_header(*self)),
                phs_bytes == spec_phs_bytes(*self, self.program_headers@.len() as int),
            decreases shn - i,
        {
            proof {
                if self.sections@[i as int].content@.len() != 0 {
                    lemma_cursor_step(*self, i as int);
                    lemma_cursor_monotone(*self, i as int + 1, self.sections@.len() as int);
                } else {
                    lemma_cursor_monotone(*self, 0, self.sections@.len() as int);
                }
            }
            let s = &self.sections[i];
            let sh = Shdr {
                name: s.name,
                ty: s.ty,
                flags: c::ShFlags(s.flags),
                addr: Addr(0),
                offset: Offset(offsets[i] as u64),
                size: s.content.len() as u64,
                link: 0,
                info: 0,
                addralign: 0,
                entsize: match s.fixed_entsize {
                    Some(x) => x,
                    None => 0,
                },
            };
            ser_shdr(&mut out, &sh);
            proof {
                assert(sh == spec_out_shdr(*self, i as int));
                assert(out@ =~= hdr_bytes + phs_bytes + spec_shs_bytes(*self, i as int + 1));
            }
            i = i + 1;
        }
        let ghost shs_bytes = spec_shs_bytes(*self, shn as int);

        // Section contents, with the padding computed during layout.
        proof {
            assert(out@ =~= hdr_bytes + phs_bytes + shs_bytes + spec_contents_bytes(*self, 0));
            crate::codec::lemma_header_bytes_len(spec_patched_header(*self));
            lemma_phs_bytes_len(*self, phn as int);
            lemma_shs_bytes_len(*self, shn as int);
            assert(out@.len() == spec_contents_start(*self));
        }
        let mut i: usize = 0;
        while i < shn
            invariant
                spec_writer_wf(*self),
                shn == self.sections@.len(),
                offsets@.len() == shn,
                forall|j: int| 0 <= j < shn ==> offsets@[j] == spec_content_offset(*self, j),
                i <= shn,
                out@ == hdr_bytes + phs_bytes + shs_bytes + spec_contents_bytes(*self, i as int),
                out@.len() == spec_cursor(*self, i as int),
                hdr_bytes == spec_header_bytes(spec_patched_header(*self)),
                phs_bytes == spec_phs_bytes(*self, self.program_headers@.len() as int),
                shs_bytes == spec_shs_bytes(*self, self.sections@.len() as int),
            decreases shn - i,
        {
            proof {
                lemma_cursor_step(*self, i as int);
                lemma_cursor_monotone(*self, i as int + 1, self.sections@.len() as int);
                lemma_contents_bytes_len(*self, i as int);
            }
            let s = &self.sections[i];
            if s.content.len() != 0 {
                let off = offsets[i];
                let pad = off - out.len();
                push_zeros(&mut out, pad);
                push_bytes(&mut out, s.content.as_slice());
                proof {
                    assert(out@ =~= hdr_bytes + phs_bytes + shs_bytes + spec_contents_bytes(
                        *self,
                        i as int + 1,
                    ));
                }
            }
            i = i + 1;
        }
        proof {
            lemma_contents_bytes_len(*self, shn as int);
        }
        Ok(out)
    }
}


impl ElfWriter {
    /// Decide whether `write` accepts this writer: the null section present,
    /// every alignment a power of two, the layout's end within memory, and
    /// every program header resolvable.
    pub fn wf_check(&self) -> (r: bool)
        ensures
            r == spec_writer_wf(*self),
    {
        let shn = self.sections.len();
        let phn = self.program_headers.len();
        if shn == 0 {
            return false;
        }
        let mut i: usize = 0;
        while i < shn
            invariant
                shn == self.sections@.len(),
                i <= shn,
                forall|j: int|
                    0 <= j < i ==> match (#[trigger] self.sections@[j]).addr_align {
                        Some(a) => spec_pow2(a),
                        None => true,
                    },
            decreases shn - i,
        {
            match self.sections[i].addr_align {
                Some(a) => {
                    if !crate::align::is_pow2(a) {
                        return false;
                    }
                },
                None => {},
            }
            i = i + 1;
        }
        proof {
            assert(spec_aligns_ok(*self));
        }

        // Walk the layout with wide arithmetic; any step past the memory
        // bound means the whole layout cannot fit.
        let start: u128 = 64 + 56 * (phn as u128) + 64 * (shn as u128);
        proof {
            assert(start == spec_contents_start(*self));
        }
        if start > usize::MAX as u128 {
            proof {
                lemma_cursor_monotone(*self, 0, self.sections@.len() as int);
            }
            return false;
        }
        let mut cur: u128 = start;
        let mut i: usize = 0;
        while i < shn
            invariant
                spec_aligns_ok(*self),
                shn == self.sections@.len(),
                i <= shn,
                cur == spec_cursor(*self, i as int),
                cur <= usize::MAX as u128,
            decreases shn - i,
        {
            proof {
                lemma_cursor_step(*self, i as int);
            }
            if self.sections[i].content.len() != 0 {
                let align: u128 = match self.sections[i].addr_align {
                    Some(a) => a as u128,
                    None => 1,
                };
                let rem = cur % align;
                proof {
                    crate::align::lemma_mod_le_self(cur as int, align as int);
                }
                let aligned: u128 = if rem == 0 {
                    cur
                } else {
                    cur - rem + align
                };
                proof {
                    assert(aligned == spec_align_up(cur as int, align as int));
                }
                let next = aligned + (self.sections[i].content.len() as u128);
                if next > usize::MAX as u128 {
                    proof {
                        lemma_cursor_monotone(*self, i as int + 1, self.sections@.len() as int);
                    }
                    return false;
                }
                cur = next;
            }
            i = i + 1;
        }

        // Every program header must name an existing section and resolve
        // without overflow.
        let end64: u64 = cur as u64;
        let mut i: usize = 0;
        while i < phn
            invariant
                spec_aligns_ok(*self),
                self.sections@.len() >= 1,
                shn == self.sections@.len(),
                phn == self.program_headers@.len(),
                i <= phn,
                end64 == spec_end_offset(*self),
                spec_end_offset(*self) <= usize::MAX,
                forall|j: int|
                    0 <= j < i ==> {
                        let ph = #[trigger] self.program_headers@[j];
                        ph.offset.section.0 < self.sections@.len()
                            && ph.offset.rel_offset.0 + spec_end_offset(*self) <= u64::MAX
                    },
            decreases phn - i,
        {
            let ph = &self.program_headers[i];
            if !((ph.offset.section.0 as usize) < shn) {
                return false;
            }
            if ph.offset.rel_offset.0 > u64::MAX - end64 {
                return false;
            }
            i = i + 1;
        }
        proof {
            assert(spec_phs_ok(*self));
        }
        true
    }
}


/// The law of the layout: for any set of sections with given sizes and
/// alignments, the computed file offsets are mutually non-overlapping, each
/// honors its section's alignment, and every non-empty section lies between
/// the contents start and the end offset (which `write` proves is the exact
/// output length).
pub proof fn law_layout_determinism(w: ElfWriter)
    requires
        spec_aligns_ok(w),
    ensures
        forall|i: int, j: int|
            (0 <= i < j < w.sections@.len() && w.sections@[i].content@.len() > 0
                && w.sections@[j].content@.len() > 0) ==> spec_content_offset(w, i)
                + w.sections@[i].content@.len() <= spec_content_offset(w, j),
        forall|i: int|
            (0 <= i < w.sections@.len() && w.sections@[i].content@.len() > 0) ==> {
                &&& #[trigger] spec_content_offset(w, i) % spec_section_align(w.sections@[i]) == 0
                &&& spec_contents_start(w) <= spec_content_offset(w, i)
                &&& spec_content_offset(w, i) + w.sections@[i].content@.len() <= spec_end_offset(w)
            },
{
    assert forall|i: int|
        (0 <= i < w.sections@.len() && w.sections@[i].content@.len() > 0) implies {
        &&& #[trigger] spec_content_offset(w, i) % spec_section_align(w.sections@[i]) == 0
        &&& spec_contents_start(w) <= spec_content_offset(w, i)
        &&& spec_content_offset(w, i) + w.sections@[i].content@.len() <= spec_end_offset(w)
    } by {
        lemma_cursor_step(w, i);
        lemma_cursor_monotone(w, 0, i);
        lemma_cursor_monotone(w, i + 1, w.sections@.len() as int);
    }
    assert forall|i: int, j: int|
        (0 <= i < j < w.sections@.len() && w.sections@[i].content@.len() > 0
            && w.sections@[j].content@.len() > 0) implies spec_content_offset(w, i)
        + w.sections@[i].content@.len() <= spec_content_offset(w, j) by {
        lemma_cursor_step(w, i);
        lemma_cursor_monotone(w, i + 1, j);
        lemma_cursor_step(w, j);
    }
}


// ------------------
// The round-trip law
// ------------------

/// One section header record extracted from the serialized table.
pub proof fn lemma_shs_bytes_index(w: ElfWriter, k: int, i: int)
    requires
        0 <= i < k,
    ensures
        spec_shs_bytes(w, k).subrange(64 * i, 64 * i + 64) == spec_shdr_bytes(spec_out_shdr(w, i)),
    decreases k,
{
    lemma_shs_bytes_len(w, k - 1);
    crate::codec::lemma_shdr_roundtrip(spec_out_shdr(w, k - 1));
    if i == k - 1 {
        assert(spec_shs_bytes(w, k).subrange(64 * i, 64 * i + 64) =~= spec_shdr_bytes(
            spec_out_shdr(w, i),
        ));
    } else {
        lemma_shs_bytes_index(w, k - 1, i);
        assert(spec_shs_bytes(w, k).subrange(64 * i, 64 * i + 64) =~= spec_shs_bytes(
            w,
            k - 1,
        ).subrange(64 * i, 64 * i + 64));
    }
}

/// One section's bytes extracted from the serialized contents region.
pub proof fn lemma_contents_extract(w: ElfWriter, k: int, i: int)
    requires
        spec_aligns_ok(w),
        0 <= i < k <= w.sections@.len(),
        w.sections@[i].content@.len() > 0,
    ensures
        spec_contents_bytes(w, k).subrange(
            spec_content_offset(w, i) - spec_contents_start(w),
            spec_content_offset(w, i) - spec_contents_start(w) + w.sections@[i].content@.len(),
        ) == w.sections@[i].content@,
    decreases k,
{
    let start = spec_contents_start(w);
    let off = spec_content_offset(w, i);
    let len = w.sections@[i].content@.len() as int;
    lemma_contents_bytes_len(w, k - 1);
    lemma_cursor_step(w, k - 1);
    if i == k - 1 {
        lemma_cursor_step(w, i);
        assert(spec_contents_bytes(w, k).subrange(off - start, off - start + len)
            =~= w.sections@[i].content@);
    } else {
        lemma_contents_extract(w, k - 1, i);
        lemma_cursor_step(w, i);
        lemma_cursor_monotone(w, i + 1, k - 1);
        assert(off - start + len <= spec_contents_bytes(w, k - 1).len());
        assert(spec_contents_bytes(w, k).subrange(off - start, off - start + len)
            =~= spec_contents_bytes(w, k - 1).subrange(off - start, off - start + len));
    }
}

/// The round-trip law: re-parsing a Writer-produced image reproduces the
/// patched header (so all header fields and the section count), every
/// written section header record, every section's byte content, and the
/// section name string table that the section names resolve through.
pub proof fn law_write_read_round_trip(w: ElfWriter)
    requires
        spec_writer_wf(w),
        2 <= w.sections@.len() <= 0xffff,
        w.program_headers@.len() <= 0xffff,
        w.header.phentsize == 56,
        w.header.shentsize == 64,
        w.header.shstrndex == c::SectionIdx(1),
        w.sections@[0].content@.len() == 0,
        forall|i: int|
            0 <= i < w.sections@.len() ==> ((#[trigger] w.sections@[i]).ty.0 != c::SHT_NOBITS
                || w.sections@[i].content@.len() == 0),
    ensures
        ({
            let out = spec_write_bytes(w);
            &&& out.len() == spec_end_offset(w)
            &&& crate::read::spec_header(out) == Ok::<ElfHeader, crate::read::ElfReadError>(
                spec_patched_header(w),
            )
            &&& crate::read::spec_section_headers(out) == Ok::<
                Seq<Shdr>,
                crate::read::ElfReadError,
            >(Seq::new(w.sections@.len(), |i: int| spec_out_shdr(w, i)))
            &&& forall|i: int|
                0 <= i < w.sections@.len() ==> crate::read::spec_section_content(
                    out,
                    #[trigger] spec_out_shdr(w, i),
                ) == Ok::<Seq<u8>, crate::read::ElfReadError>(w.sections@[i].content@)
            &&& crate::read::spec_sh_str_table(out) == Ok::<Seq<u8>, crate::read::ElfReadError>(
                w.sections@[SH_STRTAB as int].content@,
            )
            &&& (w.header.ident.magic == crate::read::Magic(0x7f, 0x45, 0x4c, 0x46)
                ==> crate::read::spec_reader_ok(out))
        }),
{
    let shn = w.sections@.len() as int;
    let phn = w.program_headers@.len() as int;
    let patched = spec_patched_header(w);
    let hdr = spec_header_bytes(patched);
    let phs = spec_phs_bytes(w, phn);
    let shs = spec_shs_bytes(w, shn);
    let cts = spec_contents_bytes(w, shn);
    let out = spec_write_bytes(w);
    let start = spec_contents_start(w);
    crate::codec::lemma_header_roundtrip(patched);
    lemma_phs_bytes_len(w, phn);
    lemma_shs_bytes_len(w, shn);
    lemma_contents_bytes_len(w, shn);
    lemma_cursor_monotone(w, 0, shn);
    assert(out.len() == spec_end_offset(w));

    // The header region reparses to the patched header.
    assert(out.subrange(0, 64) =~= hdr);
    assert(crate::read::spec_header(out) == Ok::<ElfHeader, crate::read::ElfReadError>(patched));

    // The section header table reparses record by record.
    let shoff = 64 + 56 * phn;
    assert(patched.shoff.0 == shoff);
    assert(patched.shnum == shn);
    assert(patched.shentsize == 64);
    assert forall|i: int| 0 <= i < shn implies crate::read::spec_shdr_at(
        out,
        shoff + 64 * i,
    ) == spec_out_shdr(w, i) by {
        lemma_shs_bytes_index(w, shn, i);
        assert(out.subrange(shoff + 64 * i, shoff + 64 * i + 64) =~= shs.subrange(
            64 * i,
            64 * i + 64,
        ));
        crate::codec::lemma_shdr_roundtrip(spec_out_shdr(w, i));
    }
    assert(Seq::new((patched.shnum) as nat, |i: int| crate::read::spec_shdr_at(
        out,
        patched.shoff.0 + 64 * i,
    )) =~= Seq::new(w.sections@.len(), |i: int| spec_out_shdr(w, i)));
    assert(crate::read::spec_section_headers(out) == Ok::<Seq<Shdr>, crate::read::ElfReadError>(
        Seq::new(w.sections@.len(), |i: int| spec_out_shdr(w, i)),
    ));

    // Every section's content reparses exactly.
    assert forall|i: int| 0 <= i < shn implies crate::read::spec_section_content(
        out,
        #[trigger] spec_out_shdr(w, i),
    ) == Ok::<Seq<u8>, crate::read::ElfReadError>(w.sections@[i].content@) by {
        let sh = spec_out_shdr(w, i);
        if w.sections@[i].content@.len() == 0 {
            assert(w.sections@[i].content@ =~= Seq::<u8>::empty());
            if sh.ty.0 != c::SHT_NOBITS {
                assert(sh.offset.0 == 0 && sh.size == 0);
                assert(out.subrange(0, 0) =~= w.sections@[i].content@);
            }
            assert(crate::read::spec_section_content(out, sh) == Ok::<
                Seq<u8>,
                crate::read::ElfReadError,
            >(w.sections@[i].content@));
        } else {
            let off = spec_content_offset(w, i);
            let len = w.sections@[i].content@.len() as int;
            lemma_cursor_step(w, i);
            lemma_cursor_monotone(w, i + 1, shn);
            assert(i != 0);
            assert(sh.ty.0 != c::SHT_NOBITS);
            assert(sh.offset.0 == off && sh.size == len);
            lemma_contents_extract(w, shn, i);
            assert(out.subrange(off, off + len) =~= cts.subrange(
                off - start,
                off - start + len,
            ));
            assert(crate::read::spec_section_content(out, sh) == Ok::<
                Seq<u8>,
                crate::read::ElfReadError,
            >(w.sections@[i].content@));
        }
    }

    // The section name table resolves through ordinal one.
    assert(patched.shstrndex == c::SectionIdx(1));
    assert(crate::read::spec_section_header(out, c::SectionIdx(1)) == Ok::<
        Shdr,
        crate::read::ElfReadError,
    >(spec_out_shdr(w, 1)));
    assert(crate::read::spec_sh_str_table(out) == Ok::<Seq<u8>, crate::read::ElfReadError>(
        w.sections@[SH_STRTAB as int].content@,
    ));

    // The signature survives serialization.
    if w.header.ident.magic == crate::read::Magic(0x7f, 0x45, 0x4c, 0x46) {
        assert(out[0] == hdr[0] && out[1] == hdr[1] && out[2] == hdr[2] && out[3] == hdr[3]);
        assert(hdr[0] == 0x7fu8 && hdr[1] == 0x45u8 && hdr[2] == 0x4cu8 && hdr[3] == 0x46u8) by {
            assert(hdr.subrange(0, 16) =~= crate::codec::spec_ident_bytes(patched.ident));
            crate::codec::lemma_ident_roundtrip(patched.ident);
            assert(crate::codec::spec_ident_bytes(patched.ident)[0] == 0x7fu8);
            assert(crate::codec::spec_ident_bytes(patched.ident)[1] == 0x45u8);
            assert(crate::codec::spec_ident_bytes(patched.ident)[2] == 0x4cu8);
            assert(crate::codec::spec_ident_bytes(patched.ident)[3] == 0x46u8);
        }
    }
}


/// The layout cursor depends only on the table counts, the content lengths
/// and the alignments.
pub proof fn lemma_cursor_congruent(w1: ElfWriter, w2: ElfWriter, i: int)
    requires
        w1.program_headers@.len() == w2.program_headers@.len(),
        w1.sections@.len() == w2.sections@.len(),
        forall|j: int|
            0 <= j < w1.sections@.len() ==> (#[trigger] w1.sections@[j]).content@.len()
                == w2.sections@[j].content@.len() && w1.sections@[j].addr_align
                == w2.sections@[j].addr_align,
        0 <= i <= w1.sections@.len(),
    ensures
        spec_cursor(w1, i) == spec_cursor(w2, i),
    decreases i,
{
    if i > 0 {
        lemma_cursor_congruent(w1, w2, i - 1);
    }
}

/// Whether `write` accepts a writer depends only on the table counts, the
/// content lengths, the alignments, and the program headers.
pub proof fn lemma_wf_congruent(w1: ElfWriter, w2: ElfWriter)
    requires
        w1.program_headers@.len() == w2.program_headers@.len(),
        w1.sections@.len() == w2.sections@.len(),
        forall|j: int|
            0 <= j < w1.sections@.len() ==> (#[trigger] w1.sections@[j]).content@.len()
                == w2.sections@[j].content@.len() && w1.sections@[j].addr_align
                == w2.sections@[j].addr_align,
        forall|j: int|
            0 <= j < w1.program_headers@.len() ==> (#[trigger] w1.program_headers@[j]).offset
                == w2.program_headers@[j].offset && w1.program_headers@[j].align
                == w2.program_headers@[j].align,
    ensures
        spec_writer_wf(w1) == spec_writer_wf(w2),
{
    lemma_cursor_congruent(w1, w2, w1.sections@.len() as int);
    assert(spec_end_offset(w1) == spec_end_offset(w2));
    assert(spec_aligns_ok(w1) ==> spec_aligns_ok(w2)) by {
        if spec_aligns_ok(w1) {
            assert forall|j: int|
                0 <= j < w2.sections@.len() implies match (#[trigger] w2.sections@[j]).addr_align {
                Some(a) => spec_pow2(a),
                None => true,
            } by {
                assert(w1.sections@[j].addr_align == w2.sections@[j].addr_align);
            }
        }
    }
    assert(spec_aligns_ok(w2) ==> spec_aligns_ok(w1)) by {
        if spec_aligns_ok(w2) {
            assert forall|j: int|
                0 <= j < w1.sections@.len() implies match (#[trigger] w1.sections@[j]).addr_align {
                Some(a) => spec_pow2(a),
                None => true,
            } by {
                assert(w1.sections@[j].addr_align == w2.sections@[j].addr_align);
            }
        }
    }
    assert(spec_phs_ok(w1) ==> spec_phs_ok(w2)) by {
        if spec_phs_ok(w1) {
            assert forall|j: int|
                0 <= j < w2.program_headers@.len() implies {
                let ph = #[trigger] w2.program_headers@[j];
                ph.offset.section.0 < w2.sections@.len() && ph.offset.rel_offset.0
                    + spec_end_offset(w2) <= u64::MAX
            } by {
                assert(w1.program_headers@[j].offset == w2.program_headers@[j].offset);
            }
        }
    }
    assert(spec_phs_ok(w2) ==> spec_phs_ok(w1)) by {
        if spec_phs_ok(w2) {
            assert forall|j: int|
                0 <= j < w1.program_headers@.len() implies {
                let ph = #[trigger] w1.program_headers@[j];
                ph.offset.section.0 < w1.sections@.len() && ph.offset.rel_offset.0
                    + spec_end_offset(w1) <= u64::MAX
            } by {
                assert(w1.program_headers@[j].offset == w2.program_headers@[j].offset);
            }
        }
    }
}

} // verus!
