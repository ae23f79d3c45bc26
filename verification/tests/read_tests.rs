use elven::consts::{Class, Data, Machine, OsAbi, SectionIdx, ShType, Type, DT_NEEDED, DT_STRSZ,
    ELFCLASS64, ELFDATA2LSB, ELFOSABI_SYSV, EM_X86_64, ET_EXEC, PF_R, PT_LOAD, SHF_ALLOC,
    SHT_DYNAMIC, SHT_PROGBITS, SHT_RELA};
use elven::consts::{PhFlags, PhType};
use elven::read::{Dyn, ElfIdent, ElfReadError, ElfReader, Magic, Rela, RelInfo};
use elven::write::{ElfWriter, Header, ProgramHeader, Section, SectionRelativeAbsoluteAddr};
use elven::{Addr, Offset};

fn ident() -> ElfIdent {
    ElfIdent {
        magic: Magic(0x7f, 0x45, 0x4c, 0x46),
        class: Class(ELFCLASS64),
        data: Data(ELFDATA2LSB),
        version: 1,
        osabi: OsAbi(ELFOSABI_SYSV),
        abiversion: 0,
        pad: (0, 0, 0, 0, 0, 0, 0),
    }
}

fn sample_image() -> Vec<u8> {
    let mut w = ElfWriter::new(Header {
        ident: ident(),
        ty: Type(ET_EXEC),
        machine: Machine(EM_X86_64),
    });
    let text_name = w.add_sh_string(b".text");
    w.add_section(Section {
        name: text_name,
        ty: ShType(SHT_PROGBITS),
        flags: SHF_ALLOC,
        fixed_entsize: None,
        addr_align: None,
        content: vec![0xc3],
    })
    .unwrap();
    w.add_program_header(ProgramHeader {
        ty: PhType(PT_LOAD),
        flags: PhFlags(PF_R),
        offset: SectionRelativeAbsoluteAddr { section: SectionIdx(2), rel_offset: Offset(0) },
        vaddr: Addr(0x400000),
        paddr: Addr(0x400000),
        filesz: 1,
        memsz: 1,
        align: 0x1000,
    });
    w.write().unwrap()
}

/// A buffer whose first four bytes are not the ELF signature yields
/// WrongMagic for every length at or above four.
#[test]
fn magic_rejection_all_lengths() {
    for len in [4usize, 5, 16, 63, 64, 65, 200] {
        let mut buf = vec![0u8; len];
        buf[0] = 0x7f;
        buf[1] = b'E';
        buf[2] = b'L';
        buf[3] = b'X';
        match ElfReader::new(&buf) {
            Err(ElfReadError::WrongMagic(m)) => {
                assert_eq!(m, Magic(0x7f, b'E', b'L', b'X'));
            },
            other => panic!("expected WrongMagic, got {:?}", other.map(|_| ())),
        }
    }
}

#[test]
fn short_buffer_with_good_magic_is_too_small() {
    let buf = [0x7f, b'E', b'L', b'F', 0, 0, 0, 0];
    assert_eq!(ElfReader::new(&buf).unwrap_err(), ElfReadError::FileTooSmall);
    let tiny = [0x7fu8, b'E'];
    assert_eq!(ElfReader::new(&tiny).unwrap_err(), ElfReadError::FileTooSmall);
}

/// A table whose declared range exceeds the buffer always fails with a
/// bounds error and never reads past the end.
#[test]
fn bounds_error_on_truncated_tables() {
    let mut img = sample_image();
    // Push the section header table offset far past the end of the file.
    let huge = (img.len() as u64 + 0x10000).to_le_bytes();
    img[40..48].copy_from_slice(&huge);
    let elf = ElfReader::new(&img).unwrap();
    match elf.section_headers().unwrap_err() {
        ElfReadError::IndexOutOfBounds { .. } | ElfReadError::RegionOutOfBounds { .. } => {},
        other => panic!("expected a bounds error, got {other:?}"),
    }

    // A section count too large for the bytes that follow the offset.
    let mut img2 = sample_image();
    img2[60..62].copy_from_slice(&u16::MAX.to_le_bytes());
    let elf2 = ElfReader::new(&img2).unwrap();
    match elf2.section_headers().unwrap_err() {
        ElfReadError::RegionOutOfBounds { .. } => {},
        other => panic!("expected a region bounds error, got {other:?}"),
    }
}

/// A declared entry size different from the fixed record layout fails with
/// the entry-size guard, even if the table bytes would fit another count.
#[test]
fn entry_size_guard() {
    let mut img = sample_image();
    // Section header entry size: offset 58.
    img[58..60].copy_from_slice(&32u16.to_le_bytes());
    let elf = ElfReader::new(&img).unwrap();
    assert_eq!(
        elf.section_headers().unwrap_err(),
        ElfReadError::InvalidShEntSize { expected: 64, found: 32 }
    );

    // Program header entry size: offset 54.
    let mut img2 = sample_image();
    img2[54..56].copy_from_slice(&48u16.to_le_bytes());
    let elf2 = ElfReader::new(&img2).unwrap();
    assert_eq!(
        elf2.program_headers().unwrap_err(),
        ElfReadError::InvalidPhEntSize { expected: 56, found: 48 }
    );
}

#[test]
fn lookup_errors_carry_the_key() {
    let img = sample_image();
    let elf = ElfReader::new(&img).unwrap();
    match elf.section_header_by_name(b".nope").unwrap_err() {
        ElfReadError::NotFoundByName { name, .. } => assert_eq!(name, b".nope".to_vec()),
        other => panic!("expected NotFoundByName, got {other:?}"),
    }
    match elf.symbols().unwrap_err() {
        ElfReadError::SectionTypeNotFound(ty) => assert_eq!(ty, ShType(2)),
        other => panic!("expected SectionTypeNotFound, got {other:?}"),
    }
}

#[test]
fn program_headers_resolve() {
    let img = sample_image();
    let elf = ElfReader::new(&img).unwrap();
    let phs = elf.program_headers().unwrap();
    assert_eq!(phs.len(), 1);
    assert_eq!(phs[0].ty, PhType(PT_LOAD));
    assert_eq!(phs[0].vaddr, Addr(0x400000));
    let text = elf.section_header_by_name(b".text").unwrap();
    assert_eq!(phs[0].offset, text.offset);
}

#[test]
fn string_table_absent_and_unterminated() {
    // A name table ordinal of UNDEF refuses name resolution.
    let mut img = sample_image();
    img[62..64].copy_from_slice(&0u16.to_le_bytes());
    let elf = ElfReader::new(&img).unwrap();
    assert_eq!(
        elf.sh_string(elven::read::ShStringIdx(0)).unwrap_err(),
        ElfReadError::StrTableSectionNotPresent
    );

    // A string index at the end of the table finds no nul terminator.
    let img2 = sample_image();
    let elf2 = ElfReader::new(&img2).unwrap();
    let shs = elf2.section_headers().unwrap();
    let tab_len = shs[1].size as u32;
    assert_eq!(
        elf2.sh_string(elven::read::ShStringIdx(tab_len)).unwrap_err(),
        ElfReadError::NoStringNulTerm(tab_len as u64)
    );
}

#[test]
fn dynamic_entries_and_missing_tag() {
    let mut w = ElfWriter::new(Header {
        ident: ident(),
        ty: Type(ET_EXEC),
        machine: Machine(EM_X86_64),
    });
    let mut dyn_content = Vec::new();
    elven::codec::ser_dyn(&mut dyn_content, &Dyn { tag: elven::consts::DynamicTag(DT_NEEDED), val: 7 });
    let name = w.add_sh_string(b".dynamic");
    w.add_section(Section {
        name,
        ty: ShType(SHT_DYNAMIC),
        flags: 0,
        fixed_entsize: Some(16),
        addr_align: None,
        content: dyn_content,
    })
    .unwrap();
    let img = w.write().unwrap();
    let elf = ElfReader::new(&img).unwrap();
    let dyns = elf.dyn_entries().unwrap();
    assert_eq!(dyns.len(), 1);
    assert_eq!(dyns[0].tag.0, DT_NEEDED);
    assert_eq!(dyns[0].val, 7);
    assert_eq!(elf.dyn_entry_by_tag(DT_NEEDED).unwrap().val, 7);
    assert_eq!(
        elf.dyn_entry_by_tag(DT_STRSZ).unwrap_err(),
        ElfReadError::DynEntryNotFound(elven::consts::DynamicTag(DT_STRSZ))
    );
}

#[test]
fn relocation_records_round_trip() {
    let mut w = ElfWriter::new(Header {
        ident: ident(),
        ty: Type(ET_EXEC),
        machine: Machine(EM_X86_64),
    });
    let rela = Rela { offset: Addr(0x10), info: RelInfo((3u64 << 32) | 2), addend: -4 };
    let mut content = Vec::new();
    elven::codec::ser_rela(&mut content, &rela);
    let name = w.add_sh_string(b".rela.text");
    w.add_section(Section {
        name,
        ty: ShType(SHT_RELA),
        flags: 0,
        fixed_entsize: Some(24),
        addr_align: None,
        content,
    })
    .unwrap();
    let img = w.write().unwrap();
    let elf = ElfReader::new(&img).unwrap();
    let relas = elf.relas().unwrap();
    assert_eq!(relas.len(), 1);
    assert_eq!(relas[0].1, rela);
    assert_eq!(relas[0].1.info.sym(), elven::read::SymIdx(3));
    assert_eq!(relas[0].1.info.ty(), 2);
}
