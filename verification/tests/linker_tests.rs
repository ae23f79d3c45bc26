use elven::consts::{Class, Data, Machine, OsAbi, SectionIdx, ShType, SymbolVisibility, Type,
    ELFCLASS64, ELFDATA2LSB, ELFOSABI_SYSV, EM_X86_64, ET_EXEC, ET_REL, SHF_ALLOC, SHF_EXECINSTR,
    SHT_PROGBITS, SHT_STRTAB, SHT_SYMTAB};
use elven::linker::{link, resolve_symbols, ElfFile, FileId, LinkError};
use elven::read::{ElfIdent, ElfReader, Magic, StringIdx, Sym, SymInfo};
use elven::write::{ElfWriter, Header, Section};
use elven::storage::allocate_storage;
use elven::{codec, Addr};

fn ident() -> ElfIdent {
    ElfIdent {
        magic: Magic(0x7f, 0x45, 0x4c, 0x46),
        class: Class(ELFCLASS64),
        data: Data(ELFDATA2LSB),
        version: 1,
        osabi: OsAbi(ELFOSABI_SYSV),
        abiversion: 0,
        pad: (0, 0, 0, 0, 0, 0, 0),
    }
}

/// Build a minimal relocatable object: a .text section with the given
/// bytes, and a symbol table with one entry per (name, value, section
/// ordinal) triple; ordinal 0 marks an undefined reference. The .text
/// section gets ordinal 2.
fn build_obj(text: &[u8], syms: &[(&[u8], u64, u16)]) -> Vec<u8> {
    let mut strtab = vec![0u8];
    let mut name_offsets = Vec::new();
    for (name, _, _) in syms {
        name_offsets.push(strtab.len() as u32);
        strtab.extend_from_slice(name);
        strtab.push(0);
    }
    let mut symtab = Vec::new();
    codec::ser_sym(
        &mut symtab,
        &Sym {
            name: StringIdx(0),
            info: SymInfo(0),
            other: SymbolVisibility(0),
            shndx: SectionIdx(0),
            value: Addr(0),
            size: 0,
        },
    );
    for (i, (_, value, shndx)) in syms.iter().enumerate() {
        codec::ser_sym(
            &mut symtab,
            &Sym {
                name: StringIdx(name_offsets[i]),
                info: SymInfo(0x10),
                other: SymbolVisibility(0),
                shndx: SectionIdx(*shndx),
                value: Addr(*value),
                size: 0,
            },
        );
    }
    let mut w = ElfWriter::new(Header {
        ident: ident(),
        ty: Type(ET_REL),
        machine: Machine(EM_X86_64),
    });
    let text_name = w.add_sh_string(b".text");
    w.add_section(Section {
        name: text_name,
        ty: ShType(SHT_PROGBITS),
        flags: SHF_ALLOC | SHF_EXECINSTR,
        fixed_entsize: None,
        addr_align: None,
        content: text.to_vec(),
    })
    .unwrap();
    let strtab_name = w.add_sh_string(b".strtab");
    w.add_section(Section {
        name: strtab_name,
        ty: ShType(SHT_STRTAB),
        flags: 0,
        fixed_entsize: None,
        addr_align: None,
        content: strtab,
    })
    .unwrap();
    let symtab_name = w.add_sh_string(b".symtab");
    w.add_section(Section {
        name: symtab_name,
        ty: ShType(SHT_SYMTAB),
        flags: 0,
        fixed_entsize: Some(24),
        addr_align: None,
        content: symtab,
    })
    .unwrap();
    w.write().unwrap()
}

fn files_of(bufs: &[Vec<u8>]) -> Vec<ElfFile<'_>> {
    bufs.iter()
        .enumerate()
        .map(|(i, b)| ElfFile { id: FileId(i), elf: ElfReader::new(b).unwrap() })
        .collect()
}

/// An exit-syscall stub; the bytes only matter as recognizable content.
const EXIT_STUB: [u8; 12] = [
    0xb8, 0x3c, 0x00, 0x00, 0x00, // mov eax, 60
    0xbf, 0x00, 0x00, 0x00, 0x00, // mov edi, 0
    0x0f, 0x05, // syscall
];

/// One object defining the entry symbol links alone; the produced entry
/// address is the base of the merged text section plus the symbol's value.
#[test]
fn single_object_file() {
    let obj = build_obj(&EXIT_STUB, &[(b"_start", 0, 2)]);
    let bufs = vec![obj];
    let files = files_of(&bufs);
    let out = link(&files).unwrap();

    let elf = ElfReader::new(&out).unwrap();
    let header = elf.header().unwrap();
    assert_eq!(header.ty, Type(ET_EXEC));
    assert_eq!(header.entry, Addr(0x400000));
    let text = elf.section_header_by_name(b".text").unwrap();
    assert_eq!(elf.section_content(&text).unwrap(), &EXIT_STUB);
    let phs = elf.program_headers().unwrap();
    assert_eq!(phs.len(), 1);
    assert_eq!(phs[0].vaddr, Addr(0x400000));
}

/// A caller object and a callee object link together; both text parts land
/// in the merged section and the entry comes from the first part.
#[test]
fn two_object_files() {
    let start = build_obj(
        &[0xe8, 0x00, 0x00, 0x00, 0x00], // call exit (unrelocated)
        &[(b"_start", 0, 2), (b"exit", 0, 0)],
    );
    let exit = build_obj(&EXIT_STUB, &[(b"exit", 0, 2)]);
    let bufs = vec![start, exit];
    let files = files_of(&bufs);
    let out = link(&files).unwrap();

    let elf = ElfReader::new(&out).unwrap();
    assert_eq!(elf.header().unwrap().entry, Addr(0x400000));
    let text = elf.section_header_by_name(b".text").unwrap();
    let merged = elf.section_content(&text).unwrap();
    assert_eq!(merged.len(), 5 + EXIT_STUB.len());
    assert_eq!(&merged[5..], &EXIT_STUB);
}

/// A symbol value inside its part moves the entry address with it.
#[test]
fn entry_offset_within_text() {
    let obj = build_obj(&EXIT_STUB, &[(b"_start", 4, 2)]);
    let bufs = vec![obj];
    let files = files_of(&bufs);
    let out = link(&files).unwrap();
    assert_eq!(ElfReader::new(&out).unwrap().header().unwrap().entry, Addr(0x400004));
}

/// Two objects defining the same global name fail to link, naming both
/// contributing files.
#[test]
fn duplicate_definition_fails() {
    let a = build_obj(&EXIT_STUB, &[(b"_start", 0, 2), (b"dup", 1, 2)]);
    let b = build_obj(&EXIT_STUB, &[(b"dup", 2, 2)]);
    let bufs = vec![a, b];
    let files = files_of(&bufs);
    match link(&files).unwrap_err() {
        LinkError::DuplicateSymbol { name, first, second } => {
            assert_eq!(name, b"dup".to_vec());
            assert_eq!(first, FileId(0));
            assert_eq!(second, FileId(1));
        },
        other => panic!("expected DuplicateSymbol, got {other:?}"),
    }
}

/// A reference before its definition resolves, in either input order.
#[test]
fn reference_then_definition() {
    let user = build_obj(&[0x90], &[(b"_start", 0, 2), (b"helper", 0, 0)]);
    let definer = build_obj(&EXIT_STUB, &[(b"helper", 2, 2)]);

    for bufs in [vec![user.clone(), definer.clone()], vec![definer, user]] {
        let files = files_of(&bufs);
        let table = resolve_symbols(&files).unwrap();
        let helper = table.iter().find(|s| s.name == b"helper".to_vec()).unwrap();
        let def = helper.definition.expect("helper must end up defined");
        assert_eq!(def.value, Addr(2));
        assert_eq!(def.location.section, SectionIdx(2));
    }
}

/// Resolving the same inputs twice yields an identical table.
#[test]
fn resolution_idempotent() {
    let a = build_obj(&[0x90], &[(b"_start", 0, 2), (b"helper", 0, 0)]);
    let b = build_obj(&EXIT_STUB, &[(b"helper", 2, 2)]);
    let bufs = vec![a, b];
    let files = files_of(&bufs);
    let t1 = resolve_symbols(&files).unwrap();
    let t2 = resolve_symbols(&files).unwrap();
    assert_eq!(t1, t2);
}

/// An undefined entry symbol is a distinct failure.
#[test]
fn entry_symbol_undefined() {
    let obj = build_obj(&EXIT_STUB, &[(b"other", 0, 2)]);
    let bufs = vec![obj];
    let files = files_of(&bufs);
    assert_eq!(link(&files).unwrap_err(), LinkError::EntrySymbolUndefined);

    let refonly = build_obj(&[0x90], &[(b"_start", 0, 0)]);
    let bufs2 = vec![refonly];
    let files2 = files_of(&bufs2);
    assert_eq!(link(&files2).unwrap_err(), LinkError::EntrySymbolUndefined);
}

/// No input objects is its own failure.
#[test]
fn no_input_files() {
    let files: Vec<ElfFile<'_>> = Vec::new();
    assert_eq!(link(&files).unwrap_err(), LinkError::NoInputFiles);
}

/// Storage allocation places parts in file-scan order with page-aligned
/// section bases.
#[test]
fn storage_places_parts_in_order() {
    let a = build_obj(&[0x90; 7], &[(b"_start", 0, 2)]);
    let b = build_obj(&EXIT_STUB, &[(b"exit", 0, 2)]);
    let bufs = vec![a, b];
    let files = files_of(&bufs);
    let plan = allocate_storage(Addr(0x400000), &files).unwrap();
    assert_eq!(plan.sections.len(), 1);
    let sec = &plan.sections[0];
    assert_eq!(sec.name, b".text".to_vec());
    assert_eq!(sec.parts.len(), 2);
    assert_eq!(sec.parts[0].base, Addr(0x400000));
    assert_eq!(sec.parts[0].file, FileId(0));
    assert_eq!(sec.parts[1].base, Addr(0x400007));
    assert_eq!(sec.parts[1].file, FileId(1));
    assert_eq!(sec.parts[1].pad_from_prev, 0);
}

#[test]
fn entry_in_unallocated_section_fails() {
    // The entry symbol's owning section is not one of the canonical merged
    // sections: ordinal 3 is the object's .strtab.
    let obj = build_obj(&EXIT_STUB, &[(b"_start", 0, 3)]);
    let bufs = vec![obj];
    let files = files_of(&bufs);
    assert_eq!(link(&files).unwrap_err(), LinkError::EntrySectionNotAllocated);
}

#[test]
fn entry_address_overflow_fails() {
    let obj = build_obj(&EXIT_STUB, &[(b"_start", u64::MAX, 2)]);
    let bufs = vec![obj];
    let files = files_of(&bufs);
    assert_eq!(link(&files).unwrap_err(), LinkError::AddressOverflow);
}

#[test]
fn bad_section_alignment_fails() {
    // Patch the object's .text section header so its alignment is not a
    // power of two; its header is record 2 of the section table.
    let mut obj = build_obj(&EXIT_STUB, &[(b"_start", 0, 2)]);
    let elf = ElfReader::new(&obj).unwrap();
    let shoff = elf.header().unwrap().shoff.0 as usize;
    let align_field = shoff + 64 * 2 + 48;
    obj[align_field..align_field + 8].copy_from_slice(&3u64.to_le_bytes());
    let bufs = vec![obj];
    let files = files_of(&bufs);
    assert_eq!(
        link(&files).unwrap_err(),
        LinkError::InvalidAlignment { file: FileId(0), align: 3 }
    );
}

#[test]
fn text_symbol_sizes_sorted() {
    let obj = build_obj(
        &[0x90; 32],
        &[(b"_start", 0, 2), (b"mid", 4, 2), (b"tail", 24, 2)],
    );
    let elf = ElfReader::new(&obj).unwrap();
    let sizes = elven::size::text_symbol_sizes(elf).unwrap();
    // Three measurable gaps, largest first: the null symbol sits at the
    // text base and measures zero against the entry symbol.
    assert_eq!(sizes.len(), 3);
    assert_eq!(sizes[0], (b"mid".to_vec(), 20));
    assert_eq!(sizes[1], (b"_start".to_vec(), 4));
    assert_eq!(sizes[2], (b"".to_vec(), 0));
}

#[test]
fn section_name_of_offset_resolves() {
    let obj = build_obj(&EXIT_STUB, &[(b"_start", 0, 2)]);
    let elf = ElfReader::new(&obj).unwrap();
    let text = elf.section_header_by_name(b".text").unwrap();
    let (name, within) = elven::size::section_name_of_offset(elf, elven::Offset(text.offset.0 + 2))
        .unwrap();
    assert_eq!(name, b".text".to_vec());
    assert_eq!(within, elven::Offset(2));
    let far = elven::Offset(u64::MAX);
    let (none_name, same) = elven::size::section_name_of_offset(elf, far).unwrap();
    assert_eq!(none_name, b"".to_vec());
    assert_eq!(same, far);
}

#[test]
fn sym_display_name_resolves() {
    let obj = build_obj(&EXIT_STUB, &[(b"_start", 0, 2)]);
    let elf = ElfReader::new(&obj).unwrap();
    let sym = elf.symbol_by_name(b"_start").unwrap();
    assert_eq!(elven::size::sym_display_name(elf, &sym).unwrap(), b"_start".to_vec());
}
