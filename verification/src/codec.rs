//! Byte-exact little-endian encoding and decoding of the fixed-size ELF64
//! records. Every record has a spec-level encoding, a spec-level parse, an
//! executable parse and serializer proved against them, and a proof that
//! parsing inverts encoding.

use vstd::prelude::*;
use vstd::bytes::*;
use vstd::slice::{slice_index_get, slice_subrange};
use crate::consts as c;
use crate::read::{Dyn, ElfHeader, ElfIdent, Magic, Phdr, Rel, Rela, RelInfo, Shdr, ShStringIdx,
    StringIdx, Sym, SymInfo};
use crate::{Addr, Offset};

verus! {

/// Size in bytes of the on-disk ELF header record.
pub const ELF_HEADER_SIZE: usize = 64;

/// Size in bytes of one on-disk program header entry.
pub const PHDR_SIZE: usize = 56;

/// Size in bytes of one on-disk section header entry.
pub const SHDR_SIZE: usize = 64;

/// Size in bytes of one on-disk symbol entry.
pub const SYM_SIZE: usize = 24;

/// Size in bytes of one on-disk relocation-with-addend entry.
pub const RELA_SIZE: usize = 24;

/// Size in bytes of one on-disk relocation entry without addend.
pub const REL_SIZE: usize = 16;

/// Size in bytes of one on-disk dynamic entry.
pub const DYN_SIZE: usize = 16;

// ------------------
// Little-endian field access
// ------------------

pub fn read_u8(d: &[u8], off: usize) -> (r: u8)
    requires
        off < d@.len(),
    ensures
        r == d@[off as int],
{
    *slice_index_get(d, off)
}

pub fn read_u16(d: &[u8], off: usize) -> (r: u16)
    requires
        off + 2 <= d@.len(),
    ensures
        r == spec_u16_from_le_bytes(d@.subrange(off as int, off as int + 2)),
{
    proof { vstd::slice::axiom_spec_len(d); }
    u16_from_le_bytes(slice_subrange(d, off, off + 2))
}

pub fn read_u32(d: &[u8], off: usize) -> (r: u32)
    requires
        off + 4 <= d@.len(),
    ensures
        r == spec_u32_from_le_bytes(d@.subrange(off as int, off as int + 4)),
{
    proof { vstd::slice::axiom_spec_len(d); }
    u32_from_le_bytes(slice_subrange(d, off, off + 4))
}

pub fn read_u64(d: &[u8], off: usize) -> (r: u64)
    requires
        off + 8 <= d@.len(),
    ensures
        r == spec_u64_from_le_bytes(d@.subrange(off as int, off as int + 8)),
{
    proof { vstd::slice::axiom_spec_len(d); }
    u64_from_le_bytes(slice_subrange(d, off, off + 8))
}

pub fn push_u8(out: &mut Vec<u8>, x: u8)
    ensures
        final(out)@ == old(out)@.push(x),
{
    out.push(x);
}

pub fn push_u16(out: &mut Vec<u8>, x: u16)
    ensures
        final(out)@ == old(out)@ + spec_u16_to_le_bytes(x),
{
    let mut bs = u16_to_le_bytes(x);
    out.append(&mut bs);
}

pub fn push_u32(out: &mut Vec<u8>, x: u32)
    ensures
        final(out)@ == old(out)@ + spec_u32_to_le_bytes(x),
{
    let mut bs = u32_to_le_bytes(x);
    out.append(&mut bs);
}

pub fn push_u64(out: &mut Vec<u8>, x: u64)
    ensures
        final(out)@ == old(out)@ + spec_u64_to_le_bytes(x),
{
    let mut bs = u64_to_le_bytes(x);
    out.append(&mut bs);
}


pub fn read_u8_ref(d: &[u8], off: usize) -> (r: &u8)
    requires
        off < d@.len(),
    ensures
        *r == d@[off as int],
{
    slice_index_get(d, off)
}


/// All-zero padding bytes.
pub open spec fn spec_zeros(n: int) -> Seq<u8> {
    Seq::new(n as nat, |i: int| 0u8)
}

pub fn push_zeros(out: &mut Vec<u8>, n: usize)
    ensures
        final(out)@ == old(out)@ + spec_zeros(n as int),
{
    let mut k: usize = 0;
    while k < n
        invariant
            k <= n,
            out@ =~= old(out)@ + spec_zeros(k as int),
            out@.len() == old(out)@.len() + k,
        decreases n - k,
    {
        out.push(0u8);
        proof {
            assert(out@ =~= old(out)@ + spec_zeros((k + 1) as int));
        }
        k = k + 1;
    }
    proof {
        assert(out@ =~= old(out)@ + spec_zeros(n as int));
    }
}

pub fn push_bytes(out: &mut Vec<u8>, src: &[u8])
    ensures
        final(out)@ == old(out)@ + src@,
{
    proof {
        vstd::slice::axiom_spec_len(src);
    }
    let n = src.len();
    let mut k: usize = 0;
    while k < n
        invariant
            n == src@.len(),
            k <= n,
            out@ =~= old(out)@ + src@.take(k as int),
        decreases n - k,
    {
        out.push(*slice_index_get(src, k));
        proof {
            assert(out@ =~= old(out)@ + src@.take((k + 1) as int));
        }
        k = k + 1;
    }
    proof {
        assert(src@.take(n as int) =~= src@);
    }
}

// ------------------
// Identification bytes
// ------------------

pub open spec fn spec_ident_bytes(i: ElfIdent) -> Seq<u8> {
    seq![
        i.magic.0,
        i.magic.1,
        i.magic.2,
        i.magic.3,
        i.class.0,
        i.data.0,
        i.version,
        i.osabi.0,
        i.abiversion,
        i.pad.0,
        i.pad.1,
        i.pad.2,
        i.pad.3,
        i.pad.4,
        i.pad.5,
        i.pad.6,
    ]
}

pub open spec fn spec_parse_ident(b: Seq<u8>) -> ElfIdent
    recommends
        b.len() >= 16,
{
    ElfIdent {
        magic: Magic(b[0], b[1], b[2], b[3]),
        class: c::Class(b[4]),
        data: c::Data(b[5]),
        version: b[6],
        osabi: c::OsAbi(b[7]),
        abiversion: b[8],
        pad: (b[9], b[10], b[11], b[12], b[13], b[14], b[15]),
    }
}

pub broadcast proof fn lemma_ident_roundtrip(i: ElfIdent)
    ensures
        (#[trigger] spec_ident_bytes(i)).len() == 16,
        spec_parse_ident(spec_ident_bytes(i)) == i,
{
}

pub fn parse_ident(d: &[u8], off: usize) -> (r: ElfIdent)
    requires
        off + 16 <= d@.len(),
    ensures
        r == spec_parse_ident(d@.subrange(off as int, off as int + 16)),
{
    proof { vstd::slice::axiom_spec_len(d); }
    let ghost b = d@.subrange(off as int, off as int + 16);
    let r = ElfIdent {
        magic: Magic(
            read_u8(d, off),
            read_u8(d, off + 1),
            read_u8(d, off + 2),
            read_u8(d, off + 3),
        ),
        class: c::Class(read_u8(d, off + 4)),
        data: c::Data(read_u8(d, off + 5)),
        version: read_u8(d, off + 6),
        osabi: c::OsAbi(read_u8(d, off + 7)),
        abiversion: read_u8(d, off + 8),
        pad: (
            read_u8(d, off + 9),
            read_u8(d, off + 10),
            read_u8(d, off + 11),
            read_u8(d, off + 12),
            read_u8(d, off + 13),
            read_u8(d, off + 14),
            read_u8(d, off + 15),
        ),
    };
    assert(r == spec_parse_ident(b));
    r
}

pub fn ser_ident(out: &mut Vec<u8>, i: &ElfIdent)
    ensures
        final(out)@ == old(out)@ + spec_ident_bytes(*i),
{
    push_u8(out, i.magic.0);
    push_u8(out, i.magic.1);
    push_u8(out, i.magic.2);
    push_u8(out, i.magic.3);
    push_u8(out, i.class.0);
    push_u8(out, i.data.0);
    push_u8(out, i.version);
    push_u8(out, i.osabi.0);
    push_u8(out, i.abiversion);
    push_u8(out, i.pad.0);
    push_u8(out, i.pad.1);
    push_u8(out, i.pad.2);
    push_u8(out, i.pad.3);
    push_u8(out, i.pad.4);
    push_u8(out, i.pad.5);
    push_u8(out, i.pad.6);
    assert(out@ =~= old(out)@ + spec_ident_bytes(*i));
}

// ------------------
// ELF header
// ------------------

pub open spec fn spec_header_bytes(h: ElfHeader) -> Seq<u8> {
    spec_ident_bytes(h.ident) + spec_u16_to_le_bytes(h.ty.0) + spec_u16_to_le_bytes(h.machine.0)
        + spec_u32_to_le_bytes(h.version) + spec_u64_to_le_bytes(h.entry.0) + spec_u64_to_le_bytes(
        h.phoff.0,
    ) + spec_u64_to_le_bytes(h.shoff.0) + spec_u32_to_le_bytes(h.flags) + spec_u16_to_le_bytes(
        h.ehsize,
    ) + spec_u16_to_le_bytes(h.phentsize) + spec_u16_to_le_bytes(h.phnum) + spec_u16_to_le_bytes(
        h.shentsize,
    ) + spec_u16_to_le_bytes(h.shnum) + spec_u16_to_le_bytes(h.shstrndex.0)
}

pub open spec fn spec_parse_header(b: Seq<u8>) -> ElfHeader
    recommends
        b.len() >= 64,
{
    ElfHeader {
        ident: spec_parse_ident(b.subrange(0, 16)),
        ty: c::Type(spec_u16_from_le_bytes(b.subrange(16, 18))),
        machine: c::Machine(spec_u16_from_le_bytes(b.subrange(18, 20))),
        version: spec_u32_from_le_bytes(b.subrange(20, 24)),
        entry: Addr(spec_u64_from_le_bytes(b.subrange(24, 32))),
        phoff: Offset(spec_u64_from_le_bytes(b.subrange(32, 40))),
        shoff: Offset(spec_u64_from_le_bytes(b.subrange(40, 48))),
        flags: spec_u32_from_le_bytes(b.subrange(48, 52)),
        ehsize: spec_u16_from_le_bytes(b.subrange(52, 54)),
        phentsize: spec_u16_from_le_bytes(b.subrange(54, 56)),
        phnum: spec_u16_from_le_bytes(b.subrange(56, 58)),
        shentsize: spec_u16_from_le_bytes(b.subrange(58, 60)),
        shnum: spec_u16_from_le_bytes(b.subrange(60, 62)),
        shstrndex: c::SectionIdx(spec_u16_from_le_bytes(b.subrange(62, 64))),
    }
}

pub broadcast proof fn lemma_header_bytes_len(h: ElfHeader)
    ensures
        (#[trigger] spec_header_bytes(h)).len() == 64,
{
    lemma_auto_spec_u16_to_from_le_bytes();
    lemma_auto_spec_u32_to_from_le_bytes();
    lemma_auto_spec_u64_to_from_le_bytes();
}

pub broadcast proof fn lemma_header_roundtrip(h: ElfHeader)
    ensures
        #![trigger spec_parse_header(spec_header_bytes(h))]
        spec_header_bytes(h).len() == 64,
        spec_parse_header(spec_header_bytes(h)) == h,
{
    lemma_auto_spec_u16_to_from_le_bytes();
    lemma_auto_spec_u32_to_from_le_bytes();
    lemma_auto_spec_u64_to_from_le_bytes();
    let b = spec_header_bytes(h);
    assert(b.subrange(0, 16) =~= spec_ident_bytes(h.ident));
    assert(b.subrange(16, 18) =~= spec_u16_to_le_bytes(h.ty.0));
    assert(b.subrange(18, 20) =~= spec_u16_to_le_bytes(h.machine.0));
    assert(b.subrange(20, 24) =~= spec_u32_to_le_bytes(h.version));
    assert(b.subrange(24, 32) =~= spec_u64_to_le_bytes(h.entry.0));
    assert(b.subrange(32, 40) =~= spec_u64_to_le_bytes(h.phoff.0));
    assert(b.subrange(40, 48) =~= spec_u64_to_le_bytes(h.shoff.0));
    assert(b.subrange(48, 52) =~= spec_u32_to_le_bytes(h.flags));
    assert(b.subrange(52, 54) =~= spec_u16_to_le_bytes(h.ehsize));
    assert(b.subrange(54, 56) =~= spec_u16_to_le_bytes(h.phentsize));
    assert(b.subrange(56, 58) =~= spec_u16_to_le_bytes(h.phnum));
    assert(b.subrange(58, 60) =~= spec_u16_to_le_bytes(h.shentsize));
    assert(b.subrange(60, 62) =~= spec_u16_to_le_bytes(h.shnum));
    assert(b.subrange(62, 64) =~= spec_u16_to_le_bytes(h.shstrndex.0));
    lemma_ident_roundtrip(h.ident);
}

pub fn parse_header(d: &[u8], off: usize) -> (r: ElfHeader)
    requires
        off + 64 <= d@.len(),
    ensures
        r == spec_parse_header(d@.subrange(off as int, off as int + 64)),
{
    proof { vstd::slice::axiom_spec_len(d); }
    let ghost b = d@.subrange(off as int, off as int + 64);
    assert(d@.subrange(off as int, off as int + 16) =~= b.subrange(0, 16));
    assert(d@.subrange(off as int + 16, off as int + 18) =~= b.subrange(16, 18));
    assert(d@.subrange(off as int + 18, off as int + 20) =~= b.subrange(18, 20));
    assert(d@.subrange(off as int + 20, off as int + 24) =~= b.subrange(20, 24));
    assert(d@.subrange(off as int + 24, off as int + 32) =~= b.subrange(24, 32));
    assert(d@.subrange(off as int + 32, off as int + 40) =~= b.subrange(32, 40));
    assert(d@.subrange(off as int + 40, off as int + 48) =~= b.subrange(40, 48));
    assert(d@.subrange(off as int + 48, off as int + 52) =~= b.subrange(48, 52));
    assert(d@.subrange(off as int + 52, off as int + 54) =~= b.subrange(52, 54));
    assert(d@.subrange(off as int + 54, off as int + 56) =~= b.subrange(54, 56));
    assert(d@.subrange(off as int + 56, off as int + 58) =~= b.subrange(56, 58));
    assert(d@.subrange(off as int + 58, off as int + 60) =~= b.subrange(58, 60));
    assert(d@.subrange(off as int + 60, off as int + 62) =~= b.subrange(60, 62));
    assert(d@.subrange(off as int + 62, off as int + 64) =~= b.subrange(62, 64));
    ElfHeader {
        ident: parse_ident(d, off),
        ty: c::Type(read_u16(d, off + 16)),
        machine: c::Machine(read_u16(d, off + 18)),
        version: read_u32(d, off + 20),
        entry: Addr(read_u64(d, off + 24)),
        phoff: Offset(read_u64(d, off + 32)),
        shoff: Offset(read_u64(d, off + 40)),
        flags: read_u32(d, off + 48),
        ehsize: read_u16(d, off + 52),
        phentsize: read_u16(d, off + 54),
        phnum: read_u16(d, off + 56),
        shentsize: read_u16(d, off + 58),
        shnum: read_u16(d, off + 60),
        shstrndex: c::SectionIdx(read_u16(d, off + 62)),
    }
}

pub fn ser_header(out: &mut Vec<u8>, h: &ElfHeader)
    ensures
        final(out)@ == old(out)@ + spec_header_bytes(*h),
{
    ser_ident(out, &h.ident);
    push_u16(out, h.ty.0);
    push_u16(out, h.machine.0);
    push_u32(out, h.version);
    push_u64(out, h.entry.0);
    push_u64(out, h.phoff.0);
    push_u64(out, h.shoff.0);
    push_u32(out, h.flags);
    push_u16(out, h.ehsize);
    push_u16(out, h.phentsize);
    push_u16(out, h.phnum);
    push_u16(out, h.shentsize);
    push_u16(out, h.shnum);
    push_u16(out, h.shstrndex.0);
    assert(out@ =~= old(out)@ + spec_header_bytes(*h));
}

// ------------------
// Program header
// ------------------

pub open spec fn spec_phdr_bytes(p: Phdr) -> Seq<u8> {
    spec_u32_to_le_bytes(p.ty.0) + spec_u32_to_le_bytes(p.flags.0) + spec_u64_to_le_bytes(
        p.offset.0,
    ) + spec_u64_to_le_bytes(p.vaddr.0) + spec_u64_to_le_bytes(p.paddr.0) + spec_u64_to_le_bytes(
        p.filesz,
    ) + spec_u64_to_le_bytes(p.memsz) + spec_u64_to_le_bytes(p.align)
}

pub open spec fn spec_parse_phdr(b: Seq<u8>) -> Phdr
    recommends
        b.len() >= 56,
{
    Phdr {
        ty: c::PhType(spec_u32_from_le_bytes(b.subrange(0, 4))),
        flags: c::PhFlags(spec_u32_from_le_bytes(b.subrange(4, 8))),
        offset: Offset(spec_u64_from_le_bytes(b.subrange(8, 16))),
        vaddr: Addr(spec_u64_from_le_bytes(b.subrange(16, 24))),
        paddr: Addr(spec_u64_from_le_bytes(b.subrange(24, 32))),
        filesz: spec_u64_from_le_bytes(b.subrange(32, 40)),
        memsz: spec_u64_from_le_bytes(b.subrange(40, 48)),
        align: spec_u64_from_le_bytes(b.subrange(48, 56)),
    }
}

pub broadcast proof fn lemma_phdr_roundtrip(p: Phdr)
    ensures
        #![trigger spec_phdr_bytes(p)]
        spec_phdr_bytes(p).len() == 56,
        spec_parse_phdr(spec_phdr_bytes(p)) == p,
{
    lemma_auto_spec_u32_to_from_le_bytes();
    lemma_auto_spec_u64_to_from_le_bytes();
    let b = spec_phdr_bytes(p);
    assert(b.subrange(0, 4) =~= spec_u32_to_le_bytes(p.ty.0));
    assert(b.subrange(4, 8) =~= spec_u32_to_le_bytes(p.flags.0));
    assert(b.subrange(8, 16) =~= spec_u64_to_le_bytes(p.offset.0));
    assert(b.subrange(16, 24) =~= spec_u64_to_le_bytes(p.vaddr.0));
    assert(b.subrange(24, 32) =~= spec_u64_to_le_bytes(p.paddr.0));
    assert(b.subrange(32, 40) =~= spec_u64_to_le_bytes(p.filesz));
    assert(b.subrange(40, 48) =~= spec_u64_to_le_bytes(p.memsz));
    assert(b.subrange(48, 56) =~= spec_u64_to_le_bytes(p.align));
}

pub fn parse_phdr(d: &[u8], off: usize) -> (r: Phdr)
    requires
        off + 56 <= d@.len(),
    ensures
        r == spec_parse_phdr(d@.subrange(off as int, off as int + 56)),
{
    proof { vstd::slice::axiom_spec_len(d); }
    let ghost b = d@.subrange(off as int, off as int + 56);
    assert(d@.subrange(off as int, off as int + 4) =~= b.subrange(0, 4));
    assert(d@.subrange(off as int + 4, off as int + 8) =~= b.subrange(4, 8));
    assert(d@.subrange(off as int + 8, off as int + 16) =~= b.subrange(8, 16));
    assert(d@.subrange(off as int + 16, off as int + 24) =~= b.subrange(16, 24));
    assert(d@.subrange(off as int + 24, off as int + 32) =~= b.subrange(24, 32));
    assert(d@.subrange(off as int + 32, off as int + 40) =~= b.subrange(32, 40));
    assert(d@.subrange(off as int + 40, off as int + 48) =~= b.subrange(40, 48));
    assert(d@.subrange(off as int + 48, off as int + 56) =~= b.subrange(48, 56));
    Phdr {
        ty: c::PhType(read_u32(d, off)),
        flags: c::PhFlags(read_u32(d, off + 4)),
        offset: Offset(read_u64(d, off + 8)),
        vaddr: Addr(read_u64(d, off + 16)),
        paddr: Addr(read_u64(d, off + 24)),
        filesz: read_u64(d, off + 32),
        memsz: read_u64(d, off + 40),
        align: read_u64(d, off + 48),
    }
}

pub fn ser_phdr(out: &mut Vec<u8>, p: &Phdr)
    ensures
        final(out)@ == old(out)@ + spec_phdr_bytes(*p),
{
    push_u32(out, p.ty.0);
    push_u32(out, p.flags.0);
    push_u64(out, p.offset.0);
    push_u64(out, p.vaddr.0);
    push_u64(out, p.paddr.0);
    push_u64(out, p.filesz);
    push_u64(out, p.memsz);
    push_u64(out, p.align);
    assert(out@ =~= old(out)@ + spec_phdr_bytes(*p));
}

// ------------------
// Section header
// ------------------

pub open spec fn spec_shdr_bytes(s: Shdr) -> Seq<u8> {
    spec_u32_to_le_bytes(s.name.0) + spec_u32_to_le_bytes(s.ty.0) + spec_u64_to_le_bytes(s.flags.0)
        + spec_u64_to_le_bytes(s.addr.0) + spec_u64_to_le_bytes(s.offset.0) + spec_u64_to_le_bytes(
        s.size,
    ) + spec_u32_to_le_bytes(s.link) + spec_u32_to_le_bytes(s.info) + spec_u64_to_le_bytes(
        s.addralign,
    ) + spec_u64_to_le_bytes(s.entsize)
}

pub open spec fn spec_parse_shdr(b: Seq<u8>) -> Shdr
    recommends
        b.len() >= 64,
{
    Shdr {
        name: ShStringIdx(spec_u32_from_le_bytes(b.subrange(0, 4))),
        ty: c::ShType(spec_u32_from_le_bytes(b.subrange(4, 8))),
        flags: c::ShFlags(spec_u64_from_le_bytes(b.subrange(8, 16))),
        addr: Addr(spec_u64_from_le_bytes(b.subrange(16, 24))),
        offset: Offset(spec_u64_from_le_bytes(b.subrange(24, 32))),
        size: spec_u64_from_le_bytes(b.subrange(32, 40)),
        link: spec_u32_from_le_bytes(b.subrange(40, 44)),
        info: spec_u32_from_le_bytes(b.subrange(44, 48)),
        addralign: spec_u64_from_le_bytes(b.subrange(48, 56)),
        entsize: spec_u64_from_le_bytes(b.subrange(56, 64)),
    }
}

pub broadcast proof fn lemma_shdr_roundtrip(s: Shdr)
    ensures
        #![trigger spec_shdr_bytes(s)]
        spec_shdr_bytes(s).len() == 64,
        spec_parse_shdr(spec_shdr_bytes(s)) == s,
{
    lemma_auto_spec_u32_to_from_le_bytes();
    lemma_auto_spec_u64_to_from_le_bytes();
    let b = spec_shdr_bytes(s);
    assert(b.subrange(0, 4) =~= spec_u32_to_le_bytes(s.name.0));
    assert(b.subrange(4, 8) =~= spec_u32_to_le_bytes(s.ty.0));
    assert(b.subrange(8, 16) =~= spec_u64_to_le_bytes(s.flags.0));
    assert(b.subrange(16, 24) =~= spec_u64_to_le_bytes(s.addr.0));
    assert(b.subrange(24, 32) =~= spec_u64_to_le_bytes(s.offset.0));
    assert(b.subrange(32, 40) =~= spec_u64_to_le_bytes(s.size));
    assert(b.subrange(40, 44) =~= spec_u32_to_le_bytes(s.link));
    assert(b.subrange(44, 48) =~= spec_u32_to_le_bytes(s.info));
    assert(b.subrange(48, 56) =~= spec_u64_to_le_bytes(s.addralign));
    assert(b.subrange(56, 64) =~= spec_u64_to_le_bytes(s.entsize));
}

pub fn parse_shdr(d: &[u8], off: usize) -> (r: Shdr)
    requires
        off + 64 <= d@.len(),
    ensures
        r == spec_parse_shdr(d@.subrange(off as int, off as int + 64)),
{
    proof { vstd::slice::axiom_spec_len(d); }
    let ghost b = d@.subrange(off as int, off as int + 64);
    assert(d@.subrange(off as int, off as int + 4) =~= b.subrange(0, 4));
    assert(d@.subrange(off as int + 4, off as int + 8) =~= b.subrange(4, 8));
    assert(d@.subrange(off as int + 8, off as int + 16) =~= b.subrange(8, 16));
    assert(d@.subrange(off as int + 16, off as int + 24) =~= b.subrange(16, 24));
    assert(d@.subrange(off as int + 24, off as int + 32) =~= b.subrange(24, 32));
    assert(d@.subrange(off as int + 32, off as int + 40) =~= b.subrange(32, 40));
    assert(d@.subrange(off as int + 40, off as int + 44) =~= b.subrange(40, 44));
    assert(d@.subrange(off as int + 44, off as int + 48) =~= b.subrange(44, 48));
    assert(d@.subrange(off as int + 48, off as int + 56) =~= b.subrange(48, 56));
    assert(d@.subrange(off as int + 56, off as int + 64) =~= b.subrange(56, 64));
    Shdr {
        name: ShStringIdx(read_u32(d, off)),
        ty: c::ShType(read_u32(d, off + 4)),
        flags: c::ShFlags(read_u64(d, off + 8)),
        addr: Addr(read_u64(d, off + 16)),
        offset: Offset(read_u64(d, off + 24)),
        size: read_u64(d, off + 32),
        link: read_u32(d, off + 40),
        info: read_u32(d, off + 44),
        addralign: read_u64(d, off + 48),
        entsize: read_u64(d, off + 56),
    }
}

pub fn ser_shdr(out: &mut Vec<u8>, s: &Shdr)
    ensures
        final(out)@ == old(out)@ + spec_shdr_bytes(*s),
{
    push_u32(out, s.name.0);
    push_u32(out, s.ty.0);
    push_u64(out, s.flags.0);
    push_u64(out, s.addr.0);
    push_u64(out, s.offset.0);
    push_u64(out, s.size);
    push_u32(out, s.link);
    push_u32(out, s.info);
    push_u64(out, s.addralign);
    push_u64(out, s.entsize);
    assert(out@ =~= old(out)@ + spec_shdr_bytes(*s));
}

// ------------------
// Symbol
// ------------------

pub open spec fn spec_sym_bytes(s: Sym) -> Seq<u8> {
    spec_u32_to_le_bytes(s.name.0) + seq![s.info.0, s.other.0] + spec_u16_to_le_bytes(s.shndx.0)
        + spec_u64_to_le_bytes(s.value.0) + spec_u64_to_le_bytes(s.size)
}

pub open spec fn spec_parse_sym(b: Seq<u8>) -> Sym
    recommends
        b.len() >= 24,
{
    Sym {
        name: StringIdx(spec_u32_from_le_bytes(b.subrange(0, 4))),
        info: SymInfo(b[4]),
        other: c::SymbolVisibility(b[5]),
        shndx: c::SectionIdx(spec_u16_from_le_bytes(b.subrange(6, 8))),
        value: Addr(spec_u64_from_le_bytes(b.subrange(8, 16))),
        size: spec_u64_from_le_bytes(b.subrange(16, 24)),
    }
}

pub broadcast proof fn lemma_sym_roundtrip(s: Sym)
    ensures
        #![trigger spec_sym_bytes(s)]
        spec_sym_bytes(s).len() == 24,
        spec_parse_sym(spec_sym_bytes(s)) == s,
{
    lemma_auto_spec_u16_to_from_le_bytes();
    lemma_auto_spec_u32_to_from_le_bytes();
    lemma_auto_spec_u64_to_from_le_bytes();
    let b = spec_sym_bytes(s);
    assert(b.subrange(0, 4) =~= spec_u32_to_le_bytes(s.name.0));
    assert(b.subrange(6, 8) =~= spec_u16_to_le_bytes(s.shndx.0));
    assert(b.subrange(8, 16) =~= spec_u64_to_le_bytes(s.value.0));
    assert(b.subrange(16, 24) =~= spec_u64_to_le_bytes(s.size));
}

pub fn parse_sym(d: &[u8], off: usize) -> (r: Sym)
    requires
        off + 24 <= d@.len(),
    ensures
        r == spec_parse_sym(d@.subrange(off as int, off as int + 24)),
{
    proof { vstd::slice::axiom_spec_len(d); }
    let ghost b = d@.subrange(off as int, off as int + 24);
    assert(d@.subrange(off as int, off as int + 4) =~= b.subrange(0, 4));
    assert(d@.subrange(off as int + 6, off as int + 8) =~= b.subrange(6, 8));
    assert(d@.subrange(off as int + 8, off as int + 16) =~= b.subrange(8, 16));
    assert(d@.subrange(off as int + 16, off as int + 24) =~= b.subrange(16, 24));
    Sym {
        name: StringIdx(read_u32(d, off)),
        info: SymInfo(read_u8(d, off + 4)),
        other: c::SymbolVisibility(read_u8(d, off + 5)),
        shndx: c::SectionIdx(read_u16(d, off + 6)),
        value: Addr(read_u64(d, off + 8)),
        size: read_u64(d, off + 16),
    }
}

pub fn ser_sym(out: &mut Vec<u8>, s: &Sym)
    ensures
        final(out)@ == old(out)@ + spec_sym_bytes(*s),
{
    push_u32(out, s.name.0);
    push_u8(out, s.info.0);
    push_u8(out, s.other.0);
    push_u16(out, s.shndx.0);
    push_u64(out, s.value.0);
    push_u64(out, s.size);
    assert(out@ =~= old(out)@ + spec_sym_bytes(*s));
}

// ------------------
// Relocations
// ------------------

pub open spec fn spec_rela_bytes(r: Rela) -> Seq<u8> {
    spec_u64_to_le_bytes(r.offset.0) + spec_u64_to_le_bytes(r.info.0) + spec_u64_to_le_bytes(
        r.addend as u64,
    )
}

pub open spec fn spec_parse_rela(b: Seq<u8>) -> Rela
    recommends
        b.len() >= 24,
{
    Rela {
        offset: Addr(spec_u64_from_le_bytes(b.subrange(0, 8))),
        info: RelInfo(spec_u64_from_le_bytes(b.subrange(8, 16))),
        addend: spec_u64_from_le_bytes(b.subrange(16, 24)) as i64,
    }
}

pub broadcast proof fn lemma_rela_roundtrip(r: Rela)
    ensures
        #![trigger spec_rela_bytes(r)]
        spec_rela_bytes(r).len() == 24,
        spec_parse_rela(spec_rela_bytes(r)) == r,
{
    lemma_auto_spec_u64_to_from_le_bytes();
    let b = spec_rela_bytes(r);
    assert(b.subrange(0, 8) =~= spec_u64_to_le_bytes(r.offset.0));
    assert(b.subrange(8, 16) =~= spec_u64_to_le_bytes(r.info.0));
    assert(b.subrange(16, 24) =~= spec_u64_to_le_bytes(r.addend as u64));
    let a = r.addend;
    assert((a as u64) as i64 == a) by (bit_vector);
}

pub fn parse_rela(d: &[u8], off: usize) -> (r: Rela)
    requires
        off + 24 <= d@.len(),
    ensures
        r == spec_parse_rela(d@.subrange(off as int, off as int + 24)),
{
    proof { vstd::slice::axiom_spec_len(d); }
    let ghost b = d@.subrange(off as int, off as int + 24);
    assert(d@.subrange(off as int, off as int + 8) =~= b.subrange(0, 8));
    assert(d@.subrange(off as int + 8, off as int + 16) =~= b.subrange(8, 16));
    assert(d@.subrange(off as int + 16, off as int + 24) =~= b.subrange(16, 24));
    Rela {
        offset: Addr(read_u64(d, off)),
        info: RelInfo(read_u64(d, off + 8)),
        addend: #[verifier::truncate] (read_u64(d, off + 16) as i64),
    }
}

pub fn ser_rela(out: &mut Vec<u8>, r: &Rela)
    ensures
        final(out)@ == old(out)@ + spec_rela_bytes(*r),
{
    push_u64(out, r.offset.0);
    push_u64(out, r.info.0);
    push_u64(out, r.addend as u64);
    assert(out@ =~= old(out)@ + spec_rela_bytes(*r));
}

pub open spec fn spec_rel_bytes(r: Rel) -> Seq<u8> {
    spec_u64_to_le_bytes(r.offset.0) + spec_u64_to_le_bytes(r.info.0)
}

pub open spec fn spec_parse_rel(b: Seq<u8>) -> Rel
    recommends
        b.len() >= 16,
{
    Rel {
        offset: Addr(spec_u64_from_le_bytes(b.subrange(0, 8))),
        info: RelInfo(spec_u64_from_le_bytes(b.subrange(8, 16))),
    }
}

pub broadcast proof fn lemma_rel_roundtrip(r: Rel)
    ensures
        #![trigger spec_rel_bytes(r)]
        spec_rel_bytes(r).len() == 16,
        spec_parse_rel(spec_rel_bytes(r)) == r,
{
    lemma_auto_spec_u64_to_from_le_bytes();
    let b = spec_rel_bytes(r);
    assert(b.subrange(0, 8) =~= spec_u64_to_le_bytes(r.offset.0));
    assert(b.subrange(8, 16) =~= spec_u64_to_le_bytes(r.info.0));
}

pub fn parse_rel(d: &[u8], off: usize) -> (r: Rel)
    requires
        off + 16 <= d@.len(),
    ensures
        r == spec_parse_rel(d@.subrange(off as int, off as int + 16)),
{
    proof { vstd::slice::axiom_spec_len(d); }
    let ghost b = d@.subrange(off as int, off as int + 16);
    assert(d@.subrange(off as int, off as int + 8) =~= b.subrange(0, 8));
    assert(d@.subrange(off as int + 8, off as int + 16) =~= b.subrange(8, 16));
    Rel { offset: Addr(read_u64(d, off)), info: RelInfo(read_u64(d, off + 8)) }
}

// ------------------
// Dynamic entry
// ------------------

pub open spec fn spec_dyn_bytes(e: Dyn) -> Seq<u8> {
    spec_u64_to_le_bytes(e.tag.0) + spec_u64_to_le_bytes(e.val)
}

pub open spec fn spec_parse_dyn(b: Seq<u8>) -> Dyn
    recommends
        b.len() >= 16,
{
    Dyn {
        tag: c::DynamicTag(spec_u64_from_le_bytes(b.subrange(0, 8))),
        val: spec_u64_from_le_bytes(b.subrange(8, 16)),
    }
}

pub broadcast proof fn lemma_dyn_roundtrip(e: Dyn)
    ensures
        #![trigger spec_dyn_bytes(e)]
        spec_dyn_bytes(e).len() == 16,
        spec_parse_dyn(spec_dyn_bytes(e)) == e,
{
    lemma_auto_spec_u64_to_from_le_bytes();
    let b = spec_dyn_bytes(e);
    assert(b.subrange(0, 8) =~= spec_u64_to_le_bytes(e.tag.0));
    assert(b.subrange(8, 16) =~= spec_u64_to_le_bytes(e.val));
}

pub fn parse_dyn(d: &[u8], off: usize) -> (r: Dyn)
    requires
        off + 16 <= d@.len(),
    ensures
        r == spec_parse_dyn(d@.subrange(off as int, off as int + 16)),
{
    proof { vstd::slice::axiom_spec_len(d); }
    let ghost b = d@.subrange(off as int, off as int + 16);
    assert(d@.subrange(off as int, off as int + 8) =~= b.subrange(0, 8));
    assert(d@.subrange(off as int + 8, off as int + 16) =~= b.subrange(8, 16));
    Dyn { tag: c::DynamicTag(read_u64(d, off)), val: read_u64(d, off + 8) }
}

pub fn ser_dyn(out: &mut Vec<u8>, e: &Dyn)
    ensures
        final(out)@ == old(out)@ + spec_dyn_bytes(*e),
{
    push_u64(out, e.tag.0);
    push_u64(out, e.val);
    assert(out@ =~= old(out)@ + spec_dyn_bytes(*e));
}

} // verus!
