use elven::consts::{Class, Data, Machine, OsAbi, SectionIdx, ShType, Type, ELFCLASS64,
    ELFDATA2LSB, ELFOSABI_SYSV, EM_X86_64, ET_EXEC, PF_R, SHF_ALLOC, SHT_PROGBITS, SHT_STRTAB};
use elven::consts::{PhFlags, PhType, PT_LOAD};
use elven::read::{ElfIdent, ElfReader, Magic};
use elven::write::{align_up, ElfWriter, Header, ProgramHeader, Section,
    SectionRelativeAbsoluteAddr, TableKind, WriteElfError};
use elven::{Addr, Offset};

#[test]
fn align_up_correct() {
    assert_eq!(align_up(0b0101, 0b0010), 0b0110);
    assert_eq!(align_up(16, 8), 16);
    assert_eq!(align_up(15, 8), 16);
    assert_eq!(align_up(14, 8), 16);
    assert_eq!(align_up(11, 8), 16);
    assert_eq!(align_up(10, 8), 16);
    assert_eq!(align_up(9, 8), 16);
    assert_eq!(align_up(8, 8), 8);
    assert_eq!(align_up(0, 1), 0);
}

fn ident() -> ElfIdent {
    ElfIdent {
        magic: Magic(0x7f, 0x45, 0x4c, 0x46),
        class: Class(ELFCLASS64),
        data: Data(ELFDATA2LSB),
        version: 1,
        osabi: OsAbi(ELFOSABI_SYSV),
        abiversion: 0,
        pad: (0, 0, 0, 0, 0, 0, 0),
    }
}

fn sample_writer() -> ElfWriter {
    let mut w = ElfWriter::new(Header {
        ident: ident(),
        ty: Type(ET_EXEC),
        machine: Machine(EM_X86_64),
    });
    let text_name = w.add_sh_string(b".text");
    w.add_section(Section {
        name: text_name,
        ty: ShType(SHT_PROGBITS),
        flags: SHF_ALLOC,
        fixed_entsize: None,
        addr_align: Some(16),
        content: vec![0x90, 0x90, 0xc3],
    })
    .unwrap();
    let data_name = w.add_sh_string(b".data");
    w.add_section(Section {
        name: data_name,
        ty: ShType(SHT_PROGBITS),
        flags: SHF_ALLOC,
        fixed_entsize: None,
        addr_align: Some(8),
        content: vec![1, 2, 3, 4, 5],
    })
    .unwrap();
    w.set_entry(Addr(0x401000));
    w
}

/// A Writer-produced image reparses to the same header fields, section
/// count, section names, and section contents.
#[test]
fn writer_reader_round_trip() {
    let w = sample_writer();
    let out = w.write().unwrap();
    let elf = ElfReader::new(&out).unwrap();
    let header = elf.header().unwrap();
    assert_eq!(header.ident, ident());
    assert_eq!(header.ty, Type(ET_EXEC));
    assert_eq!(header.machine, Machine(EM_X86_64));
    assert_eq!(header.entry, Addr(0x401000));
    assert_eq!(header.shnum, 4);
    assert_eq!(header.shstrndex, SectionIdx(1));

    let shs = elf.section_headers().unwrap();
    assert_eq!(shs.len(), 4);
    assert_eq!(elf.sh_string(shs[1].name).unwrap(), b".shstrtab");
    assert_eq!(elf.sh_string(shs[2].name).unwrap(), b".text");
    assert_eq!(elf.sh_string(shs[3].name).unwrap(), b".data");
    assert_eq!(shs[1].ty, ShType(SHT_STRTAB));

    let text = elf.section_header_by_name(b".text").unwrap();
    assert_eq!(elf.section_content(&text).unwrap(), &[0x90, 0x90, 0xc3]);
    let data = elf.section_header_by_name(b".data").unwrap();
    assert_eq!(elf.section_content(&data).unwrap(), &[1, 2, 3, 4, 5]);
}

/// The layout's file offsets do not overlap, honor each section's declared
/// alignment, and the output ends exactly at the last section's end.
#[test]
fn layout_non_overlap_and_exact_end() {
    let w = sample_writer();
    let out = w.write().unwrap();
    let elf = ElfReader::new(&out).unwrap();
    let shs = elf.section_headers().unwrap();
    let mut regions: Vec<(u64, u64)> = Vec::new();
    for sh in &shs {
        if sh.size > 0 {
            regions.push((sh.offset.0, sh.offset.0 + sh.size));
        }
    }
    regions.sort();
    for pair in regions.windows(2) {
        assert!(pair[0].1 <= pair[1].0, "overlapping sections");
    }
    // Declared alignments are honored.
    let text = elf.section_header_by_name(b".text").unwrap();
    assert_eq!(text.offset.0 % 16, 0);
    let data = elf.section_header_by_name(b".data").unwrap();
    assert_eq!(data.offset.0 % 8, 0);
    // The image ends exactly at the last content byte.
    let last_end = regions.iter().map(|r| r.1).max().unwrap();
    assert_eq!(out.len() as u64, last_end);
}

/// A program header's section-relative offset resolves to the section's
/// absolute file offset.
#[test]
fn program_header_offset_resolution() {
    let mut w = sample_writer();
    w.add_program_header(ProgramHeader {
        ty: PhType(PT_LOAD),
        flags: PhFlags(PF_R),
        offset: SectionRelativeAbsoluteAddr { section: SectionIdx(2), rel_offset: Offset(1) },
        vaddr: Addr(0x401000),
        paddr: Addr(0x401000),
        filesz: 2,
        memsz: 2,
        align: 0x1000,
    });
    let out = w.write().unwrap();
    let elf = ElfReader::new(&out).unwrap();
    let phs = elf.program_headers().unwrap();
    assert_eq!(phs.len(), 1);
    let text = elf.section_header_by_name(b".text").unwrap();
    assert_eq!(phs[0].offset.0, text.offset.0 + 1);
}

/// Adding sections past the 16-bit ordinal space fails with the capacity
/// error naming the section table.
#[test]
fn too_many_sections() {
    let mut w = sample_writer();
    let mut last = Ok(SectionIdx(0));
    for _ in 0..0x10000 {
        last = w.add_section(Section {
            name: elven::read::ShStringIdx(0),
            ty: ShType(SHT_PROGBITS),
            flags: 0,
            fixed_entsize: None,
            addr_align: None,
            content: Vec::new(),
        });
    }
    assert_eq!(last.unwrap_err(), WriteElfError::TooMany(TableKind::Sections));
}
