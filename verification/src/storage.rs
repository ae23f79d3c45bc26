//! Storage allocation: for each canonical output section name, collect the
//! matching section of every input file and place the parts at page-aligned,
//! part-aligned addresses.

use vstd::prelude::*;
use crate::align::{lemma_align_up_props, lemma_mod_le_self, spec_align_up, spec_pow2, AlignExt};
use crate::linker::{bss_name, data_name, text_name, spec_bss_name, spec_data_name,
    spec_file_datas, spec_file_ids, spec_text_name, ElfFile, FileId, LinkError, LinkOutcome,
    LinkResult, DEFAULT_PAGE_ALIGN};
use crate::read::{bytes_eq, lemma_byname_failed_no_notfound, ElfReadError, ScanOutcome};
use crate::Addr;

verus! {

/// One input section that will become part of a merged output section.
#[derive(Debug, Clone)]
pub struct Allocation {
    pub file: FileId,
    pub section: Vec<u8>,
    pub size: u64,
    pub align: u64,
}

/// One placed part of a merged output section: its final base address, the
/// padding that precedes it, and its provenance.
#[derive(Debug, Clone, Copy, PartialEq, Eq, Structural)]
pub struct SegmentPart {
    pub pad_from_prev: u64,
    pub base: Addr,
    pub align: u64,
    pub file: FileId,
    pub size: u64,
}

/// A merged output section: its canonical name and its placed parts, in
/// file-scan order.
#[derive(Debug, Clone)]
pub struct AllocatedSection {
    pub name: Vec<u8>,
    pub parts: Vec<SegmentPart>,
}

/// The whole storage plan, one entry per canonical section that at least one
/// input file contributes to, in order of first appearance.
#[derive(Debug, Clone)]
pub struct StorageAllocation {
    pub sections: Vec<AllocatedSection>,
}

/// One collected allocation, mathematically: owning file, declared size,
/// declared alignment.
pub type AllocEntry = (FileId, u64, u64);

/// The mathematical model of the collection pass: canonical name to its
/// allocations, ordered by first appearance.
pub type AllocMap = Seq<(Seq<u8>, Seq<AllocEntry>)>;

/// The mathematical model of the storage plan.
pub type StorageModel = Seq<(Seq<u8>, Seq<SegmentPart>)>;

/// One collection bucket: a canonical name and the allocations under it.
pub struct AllocBucket {
    pub key: Vec<u8>,
    pub items: Vec<Allocation>,
}

/// The view of a storage plan.
pub open spec fn spec_storage_view(sections: Seq<AllocatedSection>) -> StorageModel {
    sections.map_values(|s: AllocatedSection| (s.name@, s.parts@))
}

/// The canonical section names, in scan order.
pub open spec fn spec_canonical_names() -> Seq<Seq<u8>> {
    seq![spec_text_name(), spec_data_name(), spec_bss_name()]
}

/// The first entry of the map with this key, from `i` on.
pub open spec fn spec_key_index(m: AllocMap, key: Seq<u8>, i: int) -> Option<int>
    decreases m.len() - i,
{
    if i < 0 || i >= m.len() {
        None
    } else if m[i].0 == key {
        Some(i)
    } else {
        spec_key_index(m, key, i + 1)
    }
}

/// Insertion-ordered map update: append to an existing key's list, else add
/// the key at the end.
pub open spec fn spec_map_insert(m: AllocMap, key: Seq<u8>, e: AllocEntry) -> AllocMap {
    match spec_key_index(m, key, 0) {
        Some(i) => m.update(i, (m[i].0, m[i].1.push(e))),
        None => m.push((key, seq![e])),
    }
}

/// The collection pass over one file, canonical names `k` on: a match adds
/// an allocation, an absent name is skipped, any other failure aborts.
pub open spec fn spec_collect_file(d: Seq<u8>, id: FileId, k: int, m: AllocMap) -> LinkOutcome<
    AllocMap,
>
    decreases 3 - k,
{
    if k < 0 || k >= 3 {
        LinkOutcome::Done(m)
    } else {
        let name = spec_canonical_names()[k];
        match crate::read::spec_section_header_by_name(d, name) {
            ScanOutcome::Found(sh) => spec_collect_file(
                d,
                id,
                k + 1,
                spec_map_insert(m, name, (id, sh.size, sh.addralign)),
            ),
            ScanOutcome::Missing(_, _) => spec_collect_file(d, id, k + 1, m),
            ScanOutcome::Failed(e) => LinkOutcome::Fail(LinkError::Read(e)),
        }
    }
}

/// The collection pass over all files, file `f` on.
pub open spec fn spec_collect(datas: Seq<Seq<u8>>, ids: Seq<FileId>, f: int, m: AllocMap) -> LinkOutcome<
    AllocMap,
>
    decreases datas.len() - f,
{
    if f < 0 || f >= datas.len() {
        LinkOutcome::Done(m)
    } else {
        match spec_collect_file(datas[f], ids[f], 0, m) {
            LinkOutcome::Done(m2) => spec_collect(datas, ids, f + 1, m2),
            LinkOutcome::Fail(e) => LinkOutcome::Fail(e),
            LinkOutcome::MissingName(k, n) => LinkOutcome::MissingName(k, n),
            LinkOutcome::Duplicate(n, a, b) => LinkOutcome::Duplicate(n, a, b),
        }
    }
}

/// The alignment a part is placed at: a declared alignment of zero means no
/// constraint.
pub open spec fn spec_part_align(a: u64) -> u64 {
    if a == 0 {
        1u64
    } else {
        a
    }
}

/// Place the allocations of one canonical section from `j` on: advance the
/// cursor to each part's alignment, record the padding, and move past its
/// size. Placement fails on an alignment that is not a power of two and on
/// address-space overflow.
pub open spec fn spec_place_parts(
    allocs: Seq<AllocEntry>,
    cur: int,
    j: int,
    acc: Seq<SegmentPart>,
) -> LinkOutcome<(Seq<SegmentPart>, int)>
    decreases allocs.len() - j,
{
    if j < 0 || j >= allocs.len() {
        LinkOutcome::Done((acc, cur))
    } else {
        let (file, size, align0) = allocs[j];
        let align = spec_part_align(align0);
        if !spec_pow2(align) {
            LinkOutcome::Fail(LinkError::InvalidAlignment { file, align: align0 })
        } else {
            let addr = spec_align_up(cur, align as int);
            if addr + size > u64::MAX {
                LinkOutcome::Fail(LinkError::AddressOverflow)
            } else {
                let part = SegmentPart {
                    pad_from_prev: (addr - cur) as u64,
                    base: Addr(addr as u64),
                    align,
                    file,
                    size,
                };
                spec_place_parts(allocs, addr + size, j + 1, acc.push(part))
            }
        }
    }
}

/// Place every canonical section from entry `i` on, each starting at the
/// next page boundary.
pub open spec fn spec_place_sections(m: AllocMap, cur: int, i: int, acc: StorageModel) -> LinkOutcome<
    StorageModel,
>
    decreases m.len() - i,
{
    if i < 0 || i >= m.len() {
        LinkOutcome::Done(acc)
    } else {
        let page_cur = spec_align_up(cur, DEFAULT_PAGE_ALIGN as int);
        if page_cur > u64::MAX {
            LinkOutcome::Fail(LinkError::AddressOverflow)
        } else {
            match spec_place_parts(m[i].1, page_cur, 0, Seq::empty()) {
                LinkOutcome::Done((parts, cur2)) => spec_place_sections(
                    m,
                    cur2,
                    i + 1,
                    acc.push((m[i].0, parts)),
                ),
                LinkOutcome::Fail(e) => LinkOutcome::Fail(e),
                LinkOutcome::MissingName(k, n) => LinkOutcome::MissingName(k, n),
                LinkOutcome::Duplicate(n, a, b) => LinkOutcome::Duplicate(n, a, b),
            }
        }
    }
}

/// What `allocate_storage` computes, as a function of the input bytes alone.
pub open spec fn spec_allocate_storage(
    base: u64,
    datas: Seq<Seq<u8>>,
    ids: Seq<FileId>,
) -> LinkOutcome<StorageModel> {
    match spec_collect(datas, ids, 0, Seq::empty()) {
        LinkOutcome::Done(m) => spec_place_sections(m, base as int, 0, Seq::empty()),
        LinkOutcome::Fail(e) => LinkOutcome::Fail(e),
        LinkOutcome::MissingName(k, n) => LinkOutcome::MissingName(k, n),
        LinkOutcome::Duplicate(n, a, b) => LinkOutcome::Duplicate(n, a, b),
    }
}

/// The view of the exec collection state.
pub open spec fn spec_allocs_view(v: Seq<AllocBucket>) -> AllocMap {
    v.map_values(
        |p: AllocBucket| (p.key@, p.items@.map_values(|a: Allocation| (a.file, a.size, a.align))),
    )
}

/// Append an allocation under its section name, keeping first-appearance
/// key order.
fn alloc_map_push(allocs: &mut Vec<AllocBucket>, entry: Allocation)
    ensures
        spec_allocs_view(final(allocs)@) == spec_map_insert(
            spec_allocs_view(old(allocs)@),
            entry.section@,
            (entry.file, entry.size, entry.align),
        ),
{
    let ghost m0 = spec_allocs_view(old(allocs)@);
    let n = allocs.len();
    let mut i: usize = 0;
    while i < n
        invariant
            n == allocs@.len(),
            i <= n,
            allocs@ == old(allocs)@,
            m0 == spec_allocs_view(allocs@),
            spec_key_index(m0, entry.section@, 0) == spec_key_index(m0, entry.section@, i as int),
        decreases n - i,
    {
        if bytes_eq(allocs[i].key.as_slice(), entry.section.as_slice()) {
            proof {
                assert(m0[i as int].0 == entry.section@);
                assert(spec_key_index(m0, entry.section@, i as int) == Some(i as int));
            }
            let bucket = &mut allocs[i];
            let ghost e = (entry.file, entry.size, entry.align);
            bucket.items.push(entry);
            proof {
                assert(spec_allocs_view(allocs@) =~~= m0.update(
                    i as int,
                    (m0[i as int].0, m0[i as int].1.push(e)),
                ));
            }
            return ;
        }
        proof {
            assert(m0[i as int].0 == allocs@[i as int].key@);
        }
        i = i + 1;
    }
    let mut items: Vec<Allocation> = Vec::new();
    let key = clone_bytes(&entry.section);
    let ghost e = (entry.file, entry.size, entry.align);
    items.push(entry);
    allocs.push(AllocBucket { key, items });
    proof {
        assert(spec_allocs_view(allocs@) =~~= m0.push((entry.section@, seq![e])));
    }
}

/// Copy a byte vector.
pub fn clone_bytes(v: &Vec<u8>) -> (r: Vec<u8>)
    ensures
        r@ == v@,
{
    vstd::slice::slice_to_vec(v.as_slice())
}

/// Scan every input file for the canonical section names and place each
/// match: file-scan order within each canonical section, every canonical
/// section starting a fresh page-aligned region.
pub fn allocate_storage<'a>(base_addr: Addr, files: &[ElfFile<'a>]) -> (r: LinkResult<
    StorageAllocation,
>)
    ensures
        match spec_allocate_storage(base_addr.0, spec_file_datas(files@), spec_file_ids(files@)) {
            LinkOutcome::Done(model) => r matches Ok(st) && spec_storage_view(st.sections@)
                == model,
            LinkOutcome::Fail(e) => r matches Err(e2) && e2 == e,
            LinkOutcome::MissingName(..) => false,
            LinkOutcome::Duplicate(..) => false,
        },
{
    let ghost datas = spec_file_datas(files@);
    let ghost ids = spec_file_ids(files@);
    proof {
        vstd::slice::axiom_spec_len(files);
        lemma_allocate_outcomes(base_addr.0, datas, ids);
    }

    // Pass one: collect, per canonical name, every file's matching section.
    let mut allocs: Vec<AllocBucket> = Vec::new();
    proof {
        assert(spec_allocs_view(allocs@) =~= Seq::<(Seq<u8>, Seq<AllocEntry>)>::empty());
    }
    let nfiles = files.len();
    let mut f: usize = 0;
    while f < nfiles
        invariant
            nfiles == files@.len(),
            f <= nfiles,
            datas == spec_file_datas(files@),
            ids == spec_file_ids(files@),
            datas.len() == nfiles,
            ids.len() == nfiles,
            spec_collect(datas, ids, 0, Seq::empty()) == spec_collect(
                datas,
                ids,
                f as int,
                spec_allocs_view(allocs@),
            ),
        decreases nfiles - f,
    {
        let file = &files[f];
        proof {
            assert(file.elf.data@ == datas[f as int]);
            assert(file.id == ids[f as int]);
        }
        let mut k: usize = 0;
        while k < 3
            invariant
                nfiles == files@.len(),
                f < nfiles,
                k <= 3,
                datas == spec_file_datas(files@),
                ids == spec_file_ids(files@),
                datas.len() == nfiles,
                ids.len() == nfiles,
                file.elf.data@ == datas[f as int],
                file.id == ids[f as int],
                spec_collect(datas, ids, 0, Seq::empty()) == match spec_collect_file(
                    datas[f as int],
                    ids[f as int],
                    k as int,
                    spec_allocs_view(allocs@),
                ) {
                    LinkOutcome::Done(m2) => spec_collect(datas, ids, f as int + 1, m2),
                    LinkOutcome::Fail(e) => LinkOutcome::Fail(e),
                    LinkOutcome::MissingName(kk, n) => LinkOutcome::MissingName(kk, n),
                    LinkOutcome::Duplicate(n, a, b) => LinkOutcome::Duplicate(n, a, b),
                },
            decreases 3 - k,
        {
            let name: Vec<u8> = if k == 0 {
                text_name()
            } else if k == 1 {
                data_name()
            } else {
                bss_name()
            };
            proof {
                assert(name@ == spec_canonical_names()[k as int]);
                lemma_byname_failed_no_notfound(datas[f as int], name@);
            }
            match file.elf.section_header_by_name(name.as_slice()) {
                Ok(section) => {
                    let entry = Allocation {
                        file: file.id,
                        section: name,
                        size: section.size,
                        align: section.addralign,
                    };
                    alloc_map_push(&mut allocs, entry);
                },
                Err(e) => {
                    let skip = match &e {
                        ElfReadError::NotFoundByName { .. } => true,
                        _ => false,
                    };
                    if !skip {
                        return Err(LinkError::Read(e));
                    }
                },
            }
            k = k + 1;
        }
        f = f + 1;
    }

    // Pass two: place every collected part.
    let ghost m = spec_allocs_view(allocs@);
    let mut current_addr: u64 = base_addr.0;
    let mut section_parts: Vec<AllocatedSection> = Vec::new();
    proof {
        assert(spec_storage_view(section_parts@) =~= Seq::<(Seq<u8>, Seq<SegmentPart>)>::empty());
    }
    let nsec = allocs.len();
    let mut i: usize = 0;
    while i < nsec
        invariant
            nsec == allocs@.len(),
            i <= nsec,
            m == spec_allocs_view(allocs@),
            datas == spec_file_datas(files@),
            ids == spec_file_ids(files@),
            spec_collect(datas, ids, 0, Seq::empty()) == LinkOutcome::<AllocMap>::Done(m),
            spec_place_sections(m, base_addr.0 as int, 0, Seq::empty()) == spec_place_sections(
                m,
                current_addr as int,
                i as int,
                spec_storage_view(section_parts@),
            ),
        decreases nsec - i,
    {
        proof {
            assert((0x1000u64 & 0xfffu64) == 0) by (bit_vector);
            assert(spec_pow2(DEFAULT_PAGE_ALIGN));
        }
        let rem = current_addr % DEFAULT_PAGE_ALIGN;
        proof {
            lemma_mod_le_self(current_addr as int, DEFAULT_PAGE_ALIGN as int);
        }
        if rem != 0 && current_addr - rem > u64::MAX - DEFAULT_PAGE_ALIGN {
            return Err(LinkError::AddressOverflow);
        }
        proof {
            lemma_align_up_props(current_addr as int, DEFAULT_PAGE_ALIGN as int);
        }
        current_addr = current_addr.align_up(DEFAULT_PAGE_ALIGN);

        let nallocs = allocs[i].items.len();
        let mut parts: Vec<SegmentPart> = Vec::new();
        let mut j: usize = 0;
        while j < nallocs
            invariant
                nsec == allocs@.len(),
                i < nsec,
                nallocs == allocs@[i as int].items@.len(),
                j <= nallocs,
                m == spec_allocs_view(allocs@),
                m[i as int].1.len() == nallocs,
                datas == spec_file_datas(files@),
                ids == spec_file_ids(files@),
                spec_collect(datas, ids, 0, Seq::empty()) == LinkOutcome::<AllocMap>::Done(m),
                spec_place_sections(m, base_addr.0 as int, 0, Seq::empty()) == match spec_place_parts(
                    m[i as int].1,
                    current_addr as int,
                    j as int,
                    parts@,
                ) {
                    LinkOutcome::Done((ps, cur2)) => spec_place_sections(
                        m,
                        cur2,
                        i as int + 1,
                        spec_storage_view(section_parts@).push((m[i as int].0, ps)),
                    ),
                    LinkOutcome::Fail(e) => LinkOutcome::Fail(e),
                    LinkOutcome::MissingName(kk, n) => LinkOutcome::MissingName(kk, n),
                    LinkOutcome::Duplicate(n, a, b) => LinkOutcome::Duplicate(n, a, b),
                },
            decreases nallocs - j,
        {
            let af = allocs[i].items[j].file;
            let asz = allocs[i].items[j].size;
            let aal = allocs[i].items[j].align;
            proof {
                assert(m[i as int].1[j as int] == (af, asz, aal));
            }
            let align = if aal == 0 {
                1u64
            } else {
                aal
            };
            proof {
                assert(align == spec_part_align(aal));
            }
            let pow2 = align >= 1 && (align & (align - 1)) == 0;
            proof {
                assert(pow2 == spec_pow2(align));
            }
            if !pow2 {
                return Err(LinkError::InvalidAlignment { file: af, align: aal });
            }
            let rem2 = current_addr % align;
            proof {
                lemma_mod_le_self(current_addr as int, align as int);
            }
            if rem2 != 0 && current_addr - rem2 > u64::MAX - align {
                return Err(LinkError::AddressOverflow);
            }
            proof {
                lemma_align_up_props(current_addr as int, align as int);
            }
            let addr = current_addr.align_up(align);
            if asz > u64::MAX - addr {
                return Err(LinkError::AddressOverflow);
            }
            let pad = addr - current_addr;
            current_addr = addr + asz;
            let part = SegmentPart {
                pad_from_prev: pad,
                base: Addr(addr),
                align,
                file: af,
                size: asz,
            };
            parts.push(part);
            j = j + 1;
        }
        let name = clone_bytes(&allocs[i].key);
        proof {
            assert(name@ == m[i as int].0);
        }
        let ghost sv0 = spec_storage_view(section_parts@);
        let ghost partsv = parts@;
        section_parts.push(AllocatedSection { name, parts });
        proof {
            assert(spec_storage_view(section_parts@) =~= sv0.push((m[i as int].0, partsv)));
        }
        i = i + 1;
    }
    Ok(StorageAllocation { sections: section_parts })
}


// ------------------
// Facts about the storage plan
// ------------------

/// The collection map is well formed: every key is one of the canonical
/// names, every key has at least one allocation, and keys are distinct.
pub open spec fn spec_map_ok(m: AllocMap) -> bool {
    &&& forall|i: int|
        0 <= i < m.len() ==> ((#[trigger] m[i]).0 == spec_text_name() || m[i].0
            == spec_data_name() || m[i].0 == spec_bss_name()) && m[i].1.len() >= 1
    &&& forall|i: int, j: int| 0 <= i < j < m.len() ==> (#[trigger] m[i]).0 != (#[trigger] m[j]).0
}

/// A well-formed collection map has at most one entry per canonical name.
pub proof fn lemma_map_ok_len(m: AllocMap)
    requires
        spec_map_ok(m),
    ensures
        m.len() <= 3,
{
    if m.len() > 3 {
        assert(m[0].0 != m[1].0 && m[0].0 != m[2].0 && m[0].0 != m[3].0);
        assert(m[1].0 != m[2].0 && m[1].0 != m[3].0);
        assert(m[2].0 != m[3].0);
        assert(spec_text_name().len() == 5 && spec_data_name().len() == 5 && spec_bss_name().len()
            == 4);
        assert(spec_text_name()[1] == 0x74u8 && spec_data_name()[1] == 0x64u8);
        assert(false);
    }
}

/// A key the scan did not find from `i` on is on no entry from `i` on.
pub proof fn lemma_key_index_none(m: AllocMap, key: Seq<u8>, i: int, j: int)
    requires
        spec_key_index(m, key, i) is None,
        0 <= i <= j < m.len(),
    ensures
        m[j].0 != key,
    decreases j - i,
{
    if i < j {
        lemma_key_index_none(m, key, i + 1, j);
    }
}

/// Inserting a canonical key keeps the collection map well formed.
pub proof fn lemma_insert_map_ok(m: AllocMap, key: Seq<u8>, e: AllocEntry)
    requires
        spec_map_ok(m),
        key == spec_text_name() || key == spec_data_name() || key == spec_bss_name(),
    ensures
        spec_map_ok(spec_map_insert(m, key, e)),
        spec_map_insert(m, key, e).len() >= m.len(),
        spec_map_insert(m, key, e).len() <= m.len() + 1,
        forall|i: int| 0 <= i < m.len() ==> (#[trigger] spec_map_insert(m, key, e)[i]).0 == m[i].0,
{
    match spec_key_index(m, key, 0) {
        Some(i) => {
            lemma_key_index_some(m, key, 0, i);
        },
        None => {
            assert forall|j: int| 0 <= j < m.len() implies m[j].0 != key by {
                lemma_key_index_none(m, key, 0, j);
            }
        },
    }
}

/// A found key index is in range and carries the key.
pub proof fn lemma_key_index_some(m: AllocMap, key: Seq<u8>, i: int, r: int)
    requires
        spec_key_index(m, key, i) == Some(r),
        0 <= i,
    ensures
        i <= r < m.len(),
        m[r].0 == key,
    decreases m.len() - i,
{
    if i < m.len() && m[i].0 != key {
        lemma_key_index_some(m, key, i + 1, r);
    }
}

/// The collection pass only ever grows a well-formed map.
pub proof fn lemma_collect_file_map_ok(d: Seq<u8>, id: FileId, k: int, m: AllocMap)
    requires
        spec_map_ok(m),
        0 <= k,
    ensures
        spec_collect_file(d, id, k, m) matches LinkOutcome::Done(m2) ==> spec_map_ok(m2),
    decreases 3 - k,
{
    if k < 3 {
        let name = spec_canonical_names()[k];
        match crate::read::spec_section_header_by_name(d, name) {
            ScanOutcome::Found(sh) => {
                lemma_insert_map_ok(m, name, (id, sh.size, sh.addralign));
                lemma_collect_file_map_ok(d, id, k + 1, spec_map_insert(m, name, (id, sh.size, sh.addralign)));
            },
            ScanOutcome::Missing(_, _) => {
                lemma_collect_file_map_ok(d, id, k + 1, m);
            },
            ScanOutcome::Failed(_) => {},
        }
    }
}

/// The whole collection yields a well-formed map.
pub proof fn lemma_collect_map_ok(datas: Seq<Seq<u8>>, ids: Seq<FileId>, f: int, m: AllocMap)
    requires
        spec_map_ok(m),
        0 <= f,
    ensures
        spec_collect(datas, ids, f, m) matches LinkOutcome::Done(m2) ==> spec_map_ok(m2),
    decreases datas.len() - f,
{
    if f < datas.len() {
        lemma_collect_file_map_ok(datas[f], ids[f], 0, m);
        match spec_collect_file(datas[f], ids[f], 0, m) {
            LinkOutcome::Done(m2) => {
                lemma_collect_map_ok(datas, ids, f + 1, m2);
            },
            _ => {},
        }
    }
}

/// The parts of one placed section: every part ends within the address
/// space, parts do not overlap and are placed in order, and each part is
/// aligned to its (power-of-two) alignment.
pub open spec fn spec_parts_ok(ps: Seq<SegmentPart>) -> bool {
    &&& forall|a: int| 0 <= a < ps.len() ==> (#[trigger] ps[a]).base.0 + ps[a].size <= u64::MAX
    &&& forall|a: int, b: int|
        0 <= a < b < ps.len() ==> (#[trigger] ps[a]).base.0 + ps[a].size <= (#[trigger] ps[b]).base.0
    &&& forall|a: int|
        0 <= a < ps.len() ==> spec_pow2((#[trigger] ps[a]).align) && ps[a].base.0 as int % (
        ps[a].align as int) == 0
}

/// Placing parts yields exactly one part per allocation, in order, within
/// bounds, non-overlapping, and aligned; the final cursor is the last part's
/// end.
pub proof fn lemma_place_parts_props(allocs: Seq<AllocEntry>, cur: int, j: int, acc: Seq<SegmentPart>)
    requires
        0 <= j,
        0 <= cur <= u64::MAX,
        spec_parts_ok(acc),
        forall|a: int| 0 <= a < acc.len() ==> (#[trigger] acc[a]).base.0 + acc[a].size <= cur,
        spec_place_parts(allocs, cur, j, acc) is Done,
    ensures
        ({
            let (ps, cur2) = spec_place_parts(allocs, cur, j, acc)->Done_0;
            &&& ps.len() == acc.len() + (if j <= allocs.len() { allocs.len() - j } else { 0 })
            &&& spec_parts_ok(ps)
            &&& cur <= cur2 <= u64::MAX
            &&& forall|a: int| 0 <= a < ps.len() ==> (#[trigger] ps[a]).base.0 + ps[a].size <= cur2
            &&& forall|a: int| 0 <= a < acc.len() ==> ps[a] == acc[a]
            &&& forall|a: int| acc.len() <= a < ps.len() ==> cur <= (#[trigger] ps[a]).base.0
            &&& forall|a: int|
                acc.len() <= a < ps.len() ==> (#[trigger] ps[a]).file == allocs[j + a
                    - acc.len()].0 && ps[a].size == allocs[j + a - acc.len()].1
            &&& (ps.len() > acc.len() ==> cur2 == ps[ps.len() - 1].base.0 + ps[ps.len() - 1].size)
            &&& (ps.len() == acc.len() ==> cur2 == cur)
        }),
    decreases allocs.len() - j,
{
    if j < allocs.len() {
        let (file, size, align0) = allocs[j];
        let align = spec_part_align(align0);
        let addr = spec_align_up(cur, align as int);
        crate::align::lemma_align_up_props(cur, align as int);
        let part = SegmentPart {
            pad_from_prev: (addr - cur) as u64,
            base: Addr(addr as u64),
            align,
            file,
            size,
        };
        lemma_place_parts_props(allocs, addr + size, j + 1, acc.push(part));
    }
}

/// Placing every section keeps each entry's name and part count from the
/// collection map and yields well-formed parts.
pub proof fn lemma_place_sections_props(m: AllocMap, cur: int, i: int, acc: StorageModel)
    requires
        0 <= i,
        0 <= cur <= u64::MAX,
        spec_place_sections(m, cur, i, acc) is Done,
    ensures
        ({
            let st = spec_place_sections(m, cur, i, acc)->Done_0;
            &&& st.len() == acc.len() + (if i <= m.len() { m.len() - i } else { 0 })
            &&& forall|k: int| 0 <= k < acc.len() ==> st[k] == acc[k]
            &&& forall|k: int|
                acc.len() <= k < st.len() ==> (#[trigger] st[k]).0 == m[i + k - acc.len()].0
                    && st[k].1.len() == m[i + k - acc.len()].1.len() && spec_parts_ok(st[k].1)
            &&& forall|k: int, a: int|
                acc.len() <= k < st.len() && 0 <= a < st[k].1.len() ==> (#[trigger] st[k].1[a]).file
                    == m[i + k - acc.len()].1[a].0
        }),
    decreases m.len() - i,
{
    if i < m.len() {
        let page_cur = spec_align_up(cur, DEFAULT_PAGE_ALIGN as int);
        if page_cur <= u64::MAX {
            crate::align::lemma_align_up_props(cur, DEFAULT_PAGE_ALIGN as int);
            match spec_place_parts(m[i].1, page_cur, 0, Seq::empty()) {
                LinkOutcome::Done((parts, cur2)) => {
                    lemma_place_parts_props(m[i].1, page_cur, 0, Seq::empty());
                    lemma_place_sections_props(m, cur2, i + 1, acc.push((m[i].0, parts)));
                },
                _ => {},
            }
        }
    }
}

/// The law behind the storage plan: every successful allocation yields, per
/// canonical section, parts in bounds, mutually non-overlapping, in
/// placement order, and each aligned to its power-of-two alignment; every
/// section holds one part per contributing file and carries a canonical
/// name, each name at most once.
pub proof fn law_storage_plan(base: u64, datas: Seq<Seq<u8>>, ids: Seq<FileId>)
    ensures
        spec_allocate_storage(base, datas, ids) matches LinkOutcome::Done(st) ==> {
            &&& st.len() <= 3
            &&& forall|k: int|
                0 <= k < st.len() ==> ((#[trigger] st[k]).0 == spec_text_name() || st[k].0
                    == spec_data_name() || st[k].0 == spec_bss_name()) && st[k].1.len() >= 1
                    && spec_parts_ok(st[k].1)
            &&& forall|k1: int, k2: int|
                0 <= k1 < k2 < st.len() ==> (#[trigger] st[k1]).0 != (#[trigger] st[k2]).0
        },
{
    lemma_collect_map_ok(datas, ids, 0, Seq::empty());
    match spec_collect(datas, ids, 0, Seq::empty()) {
        LinkOutcome::Done(m) => {
            lemma_map_ok_len(m);
            if spec_place_sections(m, base as int, 0, Seq::empty()) is Done {
                lemma_place_sections_props(m, base as int, 0, Seq::empty());
            }
        },
        _ => {},
    }
}


/// Every allocation in the map names a file inside the input range.
pub open spec fn spec_map_files_ok(m: AllocMap, n: int) -> bool {
    forall|i: int, j: int|
        0 <= i < m.len() && 0 <= j < m[i].1.len() ==> (#[trigger] m[i].1[j]).0.0 < n
}

/// Every part of the storage plan names a file inside the input range.
pub open spec fn spec_st_files_ok(st: StorageModel, n: int) -> bool {
    forall|i: int, j: int|
        0 <= i < st.len() && 0 <= j < st[i].1.len() ==> (#[trigger] st[i].1[j]).file.0 < n
}

pub proof fn lemma_insert_files_ok(m: AllocMap, key: Seq<u8>, e: AllocEntry, n: int)
    requires
        spec_map_files_ok(m, n),
        e.0.0 < n,
    ensures
        spec_map_files_ok(spec_map_insert(m, key, e), n),
{
    match spec_key_index(m, key, 0) {
        Some(i) => {
            lemma_key_index_some(m, key, 0, i);
        },
        None => {},
    }
}

pub proof fn lemma_collect_file_files_ok(d: Seq<u8>, id: FileId, k: int, m: AllocMap, n: int)
    requires
        spec_map_files_ok(m, n),
        id.0 < n,
        0 <= k,
    ensures
        spec_collect_file(d, id, k, m) matches LinkOutcome::Done(m2) ==> spec_map_files_ok(m2, n),
    decreases 3 - k,
{
    if k < 3 {
        let name = spec_canonical_names()[k];
        match crate::read::spec_section_header_by_name(d, name) {
            ScanOutcome::Found(sh) => {
                lemma_insert_files_ok(m, name, (id, sh.size, sh.addralign), n);
                lemma_collect_file_files_ok(
                    d,
                    id,
                    k + 1,
                    spec_map_insert(m, name, (id, sh.size, sh.addralign)),
                    n,
                );
            },
            ScanOutcome::Missing(_, _) => {
                lemma_collect_file_files_ok(d, id, k + 1, m, n);
            },
            ScanOutcome::Failed(_) => {},
        }
    }
}

pub proof fn lemma_collect_files_ok(datas: Seq<Seq<u8>>, ids: Seq<FileId>, f: int, m: AllocMap, n: int)
    requires
        spec_map_files_ok(m, n),
        0 <= f,
        forall|g: int| 0 <= g < ids.len() ==> (#[trigger] ids[g]).0 < n,
        ids.len() == datas.len(),
    ensures
        spec_collect(datas, ids, f, m) matches LinkOutcome::Done(m2) ==> spec_map_files_ok(m2, n),
    decreases datas.len() - f,
{
    if f < datas.len() {
        lemma_collect_file_files_ok(datas[f], ids[f], 0, m, n);
        match spec_collect_file(datas[f], ids[f], 0, m) {
            LinkOutcome::Done(m2) => {
                lemma_collect_files_ok(datas, ids, f + 1, m2, n);
            },
            _ => {},
        }
    }
}

/// A successful storage allocation only names input files that exist.
pub proof fn lemma_storage_files_ok(base: u64, datas: Seq<Seq<u8>>, ids: Seq<FileId>, n: int)
    requires
        forall|g: int| 0 <= g < ids.len() ==> (#[trigger] ids[g]).0 < n,
        ids.len() == datas.len(),
    ensures
        spec_allocate_storage(base, datas, ids) matches LinkOutcome::Done(st) ==> spec_st_files_ok(
            st,
            n,
        ),
{
    lemma_collect_files_ok(datas, ids, 0, Seq::empty(), n);
    match spec_collect(datas, ids, 0, Seq::empty()) {
        LinkOutcome::Done(m) => {
            if spec_place_sections(m, base as int, 0, Seq::empty()) is Done {
                lemma_place_sections_props(m, base as int, 0, Seq::empty());
            }
        },
        _ => {},
    }
}


/// The collection and placement passes can only succeed or fail: they never
/// report a missed name or a duplicate definition.
pub proof fn lemma_collect_file_outcomes(d: Seq<u8>, id: FileId, k: int, m: AllocMap)
    ensures
        spec_collect_file(d, id, k, m) is Done || spec_collect_file(d, id, k, m) is Fail,
    decreases 3 - k,
{
    if 0 <= k < 3 {
        let name = spec_canonical_names()[k];
        match crate::read::spec_section_header_by_name(d, name) {
            ScanOutcome::Found(sh) => {
                lemma_collect_file_outcomes(d, id, k + 1, spec_map_insert(m, name, (id, sh.size, sh.addralign)));
            },
            ScanOutcome::Missing(_, _) => {
                lemma_collect_file_outcomes(d, id, k + 1, m);
            },
            ScanOutcome::Failed(_) => {},
        }
    }
}

pub proof fn lemma_collect_outcomes(datas: Seq<Seq<u8>>, ids: Seq<FileId>, f: int, m: AllocMap)
    ensures
        spec_collect(datas, ids, f, m) is Done || spec_collect(datas, ids, f, m) is Fail,
    decreases datas.len() - f,
{
    if 0 <= f < datas.len() {
        lemma_collect_file_outcomes(datas[f], ids[f], 0, m);
        match spec_collect_file(datas[f], ids[f], 0, m) {
            LinkOutcome::Done(m2) => {
                lemma_collect_outcomes(datas, ids, f + 1, m2);
            },
            _ => {},
        }
    }
}

pub proof fn lemma_place_parts_outcomes(allocs: Seq<AllocEntry>, cur: int, j: int, acc: Seq<SegmentPart>)
    ensures
        spec_place_parts(allocs, cur, j, acc) is Done || spec_place_parts(allocs, cur, j, acc) is Fail,
    decreases allocs.len() - j,
{
    if 0 <= j < allocs.len() {
        let (file, size, align0) = allocs[j];
        let align = spec_part_align(align0);
        if spec_pow2(align) {
            let addr = spec_align_up(cur, align as int);
            if addr + size <= u64::MAX {
                let part = SegmentPart {
                    pad_from_prev: (addr - cur) as u64,
                    base: Addr(addr as u64),
                    align,
                    file,
                    size,
                };
                lemma_place_parts_outcomes(allocs, addr + size, j + 1, acc.push(part));
            }
        }
    }
}

pub proof fn lemma_place_sections_outcomes(m: AllocMap, cur: int, i: int, acc: StorageModel)
    ensures
        spec_place_sections(m, cur, i, acc) is Done || spec_place_sections(m, cur, i, acc) is Fail,
    decreases m.len() - i,
{
    if 0 <= i < m.len() {
        let page_cur = spec_align_up(cur, DEFAULT_PAGE_ALIGN as int);
        if page_cur <= u64::MAX {
            lemma_place_parts_outcomes(m[i].1, page_cur, 0, Seq::empty());
            match spec_place_parts(m[i].1, page_cur, 0, Seq::empty()) {
                LinkOutcome::Done((parts, cur2)) => {
                    lemma_place_sections_outcomes(m, cur2, i + 1, acc.push((m[i].0, parts)));
                },
                _ => {},
            }
        }
    }
}

/// Storage allocation succeeds or fails; it never reports a missed name or
/// a duplicate.
pub proof fn lemma_allocate_outcomes(base: u64, datas: Seq<Seq<u8>>, ids: Seq<FileId>)
    ensures
        spec_allocate_storage(base, datas, ids) is Done || spec_allocate_storage(
            base,
            datas,
            ids,
        ) is Fail,
{
    lemma_collect_outcomes(datas, ids, 0, Seq::empty());
    match spec_collect(datas, ids, 0, Seq::empty()) {
        LinkOutcome::Done(m) => {
            lemma_place_sections_outcomes(m, base as int, 0, Seq::empty());
        },
        _ => {},
    }
}

} // verus!
