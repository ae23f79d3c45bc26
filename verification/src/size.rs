//! Symbol-size analysis: measure each text symbol by the distance to the
//! next one, and break demangled Rust symbol names into path components,
//! qualified-path syntax included.

use vstd::prelude::*;
use crate::consts as c;
use crate::read::{ElfReader, ElfReadError, NameKind, ReadResult, ScanOutcome, Shdr, Sym};
use crate::Offset;

verus! {

/// What `rustc_demangle::demangle` produces for a symbol's bytes; the result
/// depends on the bytes alone.
pub uninterp spec fn demangled_of(sym: Seq<u8>) -> Seq<u8>;

/// Relies on rustc_demangle::demangle, rendered to a string: the demangled
/// form of a symbol name, which is a function of the name alone. Symbols
/// that are not UTF-8 cannot be demangled.
#[verifier::external_body]
fn demangle_bytes(sym: &[u8]) -> (r: Option<Vec<u8>>)
    ensures
        r is Some <==> vstd::utf8::valid_utf8(sym@),
        r matches Some(v) ==> v@ == demangled_of(sym@),
{
    match core::str::from_utf8(sym) {
        Ok(s) => Some(rustc_demangle::demangle(s).to_string().into_bytes()),
        Err(_) => None,
    }
}

/// A demangled qualified path `<qself as trait>::path`.
#[derive(Debug, Clone, PartialEq, Eq)]
pub struct QPath {
    pub qself: Vec<u8>,
    pub trait_: Vec<u8>,
    pub pathy_bit: Vec<u8>,
}

#[derive(Debug, Clone, Copy, PartialEq, Eq, Structural)]
pub enum QPathError {
    /// The qualified part does not end with a matching closing angle.
    NoClosingAngle,
    /// The qualified part does not contain an " as " separator.
    NoAsSeparator,
    /// The path after the qualification does not start with "::".
    NoPathSeparator,
}

/// The scan over a qualified symbol from position `i`: track the angle
/// bracket depth, remember the first space seen at depth one, and stop at
/// the angle that closes the opening one. Yields the closing position and
/// the position of the separating space, where found.
pub open spec fn spec_qscan(s: Seq<u8>, i: int, depth: int, as_idx: Option<int>) -> (
    Option<int>,
    Option<int>,
)
    decreases s.len() - i,
{
    if i < 0 || i >= s.len() {
        (None, as_idx)
    } else if s[i] == 0x3cu8 {
        spec_qscan(s, i + 1, depth + 1, as_idx)
    } else if s[i] == 0x3eu8 {
        if depth == 1 {
            (Some(i), as_idx)
        } else {
            spec_qscan(s, i + 1, depth - 1, as_idx)
        }
    } else if s[i] == 0x20u8 && depth == 1 && as_idx is None {
        spec_qscan(s, i + 1, depth, Some(i))
    } else {
        spec_qscan(s, i + 1, depth, as_idx)
    }
}

/// The spec-level outcome of `parse_qpath`.
pub enum QPathOutcome {
    Parsed(Seq<u8>, Seq<u8>, Seq<u8>),
    Failed(QPathError),
}

/// What `parse_qpath` computes: scan for the closing angle and the " as "
/// separator, then take the self type, the trait, and the trailing path.
pub open spec fn spec_parse_qpath(s: Seq<u8>) -> QPathOutcome {
    let (close, as_idx) = spec_qscan(s, 1, 1, None);
    match close {
        None => QPathOutcome::Failed(QPathError::NoClosingAngle),
        Some(q_close) => match as_idx {
            None => QPathOutcome::Failed(QPathError::NoAsSeparator),
            Some(a) => if a + 4 > q_close {
                QPathOutcome::Failed(QPathError::NoAsSeparator)
            } else {
                let pathy = s.subrange(q_close + 1, s.len() as int);
                if pathy.len() >= 2 && pathy[0] == 0x3au8 && pathy[1] == 0x3au8 {
                    QPathOutcome::Parsed(
                        s.subrange(1, a),
                        s.subrange(a + 4, q_close),
                        pathy.subrange(2, pathy.len() as int),
                    )
                } else {
                    QPathOutcome::Failed(QPathError::NoPathSeparator)
                }
            },
        },
    }
}

/// The scan never reports positions outside the buffer, the separator is
/// before the close, and both lie at or after the start.
pub proof fn lemma_qscan_bounds(s: Seq<u8>, i: int, depth: int, as_idx: Option<int>)
    requires
        0 <= i,
        as_idx matches Some(a) ==> 0 <= a < i,
    ensures
        ({
            let (close, a2) = spec_qscan(s, i, depth, as_idx);
            &&& (close matches Some(q) ==> i <= q < s.len())
            &&& (close matches Some(q) ==> (a2 matches Some(a) ==> 0 <= a < q))
        }),
    decreases s.len() - i,
{
    if 0 <= i < s.len() {
        if s[i] == 0x3cu8 {
            lemma_qscan_bounds(s, i + 1, depth + 1, as_idx);
        } else if s[i] == 0x3eu8 {
            if depth != 1 {
                lemma_qscan_bounds(s, i + 1, depth - 1, as_idx);
            }
        } else if s[i] == 0x20u8 && depth == 1 && as_idx is None {
            lemma_qscan_bounds(s, i + 1, depth, Some(i));
        } else {
            lemma_qscan_bounds(s, i + 1, depth, as_idx);
        }
    }
}

/// Parse a demangled qualified symbol `<qself as trait>::path`.
pub fn parse_qpath(s: &[u8]) -> (r: Result<QPath, QPathError>)
    ensures
        match spec_parse_qpath(s@) {
            QPathOutcome::Parsed(q, t, p) => r matches Ok(qp) && qp.qself@ == q && qp.trait_@ == t
                && qp.pathy_bit@ == p && q.len() < s@.len(),
            QPathOutcome::Failed(e) => r matches Err(e2) && e2 == e,
        },
{
    proof {
        vstd::slice::axiom_spec_len(s);
        lemma_qscan_bounds(s@, 1, 1, None);
    }
    let n = s.len();
    let mut i: usize = 1;
    let mut depth: u64 = 1;
    let mut as_idx: Option<usize> = None;
    let mut close: Option<usize> = None;
    while i < n && close.is_none()
        invariant
            n == s@.len(),
            1 <= i,
            i <= n || n == 0,
            1 <= depth,
            depth <= i,
            as_idx matches Some(a) ==> 1 <= a < i,
            close is None ==> spec_qscan(s@, 1, 1, None) == spec_qscan(
                s@,
                i as int,
                depth as int,
                match as_idx {
                    Some(a) => Some(a as int),
                    None => None,
                },
            ),
            close matches Some(q) ==> ({
                let (c2, a2) = spec_qscan(s@, 1, 1, None);
                c2 == Some(q as int) && a2 == (match as_idx {
                    Some(a) => Some(a as int),
                    None => None::<int>,
                }) && q < n
            }),
        decreases n - i, (if close is None { 1int } else { 0int }),
    {
        let ch = *crate::codec::read_u8_ref(s, i);
        if ch == 0x3c {
            depth = depth + 1;
            i = i + 1;
        } else if ch == 0x3e {
            if depth == 1 {
                close = Some(i);
            } else {
                depth = depth - 1;
                i = i + 1;
            }
        } else if ch == 0x20 && depth == 1 && as_idx.is_none() {
            as_idx = Some(i);
            i = i + 1;
        } else {
            i = i + 1;
        }
    }
    let q_close = match close {
        Some(q) => q,
        None => {
            return Err(QPathError::NoClosingAngle);
        },
    };
    let a = match as_idx {
        Some(a) => a,
        None => {
            return Err(QPathError::NoAsSeparator);
        },
    };
    proof {
        assert(q_close < n);
        assert(a < q_close);
    }
    if q_close - a < 4 {
        return Err(QPathError::NoAsSeparator);
    }
    let pathy_len = n - (q_close + 1);
    if !(pathy_len >= 2 && *crate::codec::read_u8_ref(s, q_close + 1) == 0x3a
        && *crate::codec::read_u8_ref(s, q_close + 2) == 0x3a) {
        proof {
            let pathy = s@.subrange(q_close + 1, n as int);
            assert(pathy.len() >= 2 ==> (pathy[0] == s@[q_close + 1] && pathy[1] == s@[q_close
                + 2]));
        }
        return Err(QPathError::NoPathSeparator);
    }
    let qself = vstd::slice::slice_to_vec(vstd::slice::slice_subrange(s, 1, a));
    let trait_ = vstd::slice::slice_to_vec(vstd::slice::slice_subrange(s, a + 4, q_close));
    let pathy_bit = vstd::slice::slice_to_vec(vstd::slice::slice_subrange(s, q_close + 3, n));
    proof {
        let pathy = s@.subrange(q_close + 1, n as int);
        assert(pathy[0] == s@[q_close + 1] && pathy[1] == s@[q_close + 2]);
        assert(pathy_bit@ =~= pathy.subrange(2, pathy.len() as int));
    }
    Ok(QPath { qself, trait_, pathy_bit })
}

// ------------------
// Path splitting
// ------------------

/// The first position at or after `i` where "::" starts, if any.
pub open spec fn spec_find_sep(s: Seq<u8>, i: int) -> Option<int>
    decreases s.len() - i,
{
    if i < 0 || i + 2 > s.len() {
        None
    } else if s[i] == 0x3au8 && s[i + 1] == 0x3au8 {
        Some(i)
    } else {
        spec_find_sep(s, i + 1)
    }
}

/// The pieces of `s` from `i` on, separated by "::", leftmost first; a
/// missing separator yields the rest as one piece.
pub open spec fn spec_split_path(s: Seq<u8>, i: int) -> Seq<Seq<u8>>
    decreases s.len() - i,
    via spec_split_path_decreases
{
    if i < 0 {
        Seq::empty()
    } else {
        match spec_find_sep(s, i) {
            None => seq![s.subrange(i, s.len() as int)],
            Some(j) => seq![s.subrange(i, j)] + spec_split_path(s, j + 2),
        }
    }
}

#[via_fn]
proof fn spec_split_path_decreases(s: Seq<u8>, i: int) {
    if i >= 0 {
        lemma_find_sep_bounds(s, i);
    }
}

pub proof fn lemma_find_sep_bounds(s: Seq<u8>, i: int)
    requires
        0 <= i,
    ensures
        spec_find_sep(s, i) matches Some(j) ==> i <= j && j + 2 <= s.len(),
    decreases s.len() - i,
{
    if i + 2 <= s.len() && !(s[i] == 0x3au8 && s[i + 1] == 0x3au8) {
        lemma_find_sep_bounds(s, i + 1);
    }
}

/// The views of a list of byte vectors.
pub open spec fn spec_vecs_view(v: Seq<Vec<u8>>) -> Seq<Seq<u8>> {
    v.map_values(|b: Vec<u8>| b@)
}

fn find_sep(s: &[u8], from: usize) -> (r: Option<usize>)
    requires
        from <= s@.len(),
    ensures
        match r {
            Some(j) => spec_find_sep(s@, from as int) == Some(j as int) && from <= j && j + 2
                <= s@.len(),
            None => spec_find_sep(s@, from as int) is None,
        },
{
    proof {
        vstd::slice::axiom_spec_len(s);
    }
    let n = s.len();
    if n < 2 {
        return None;
    }
    let mut i = from;
    while i < n - 1
        invariant
            n == s@.len(),
            2 <= n,
            from <= i,
            i <= n,
            spec_find_sep(s@, from as int) == spec_find_sep(s@, i as int),
        decreases n - i,
    {
        if *crate::codec::read_u8_ref(s, i) == 0x3a && *crate::codec::read_u8_ref(s, i + 1)
            == 0x3a {
            return Some(i);
        }
        i = i + 1;
    }
    None
}

/// Split a demangled path on "::".
pub fn split_path(s: &[u8]) -> (r: Vec<Vec<u8>>)
    ensures
        spec_vecs_view(r@) == spec_split_path(s@, 0),
{
    proof {
        vstd::slice::axiom_spec_len(s);
    }
    let n = s.len();
    let mut acc: Vec<Vec<u8>> = Vec::new();
    let mut cur: usize = 0;
    let mut done = false;
    proof {
        assert(spec_vecs_view(acc@) =~= Seq::<Seq<u8>>::empty());
    }
    while !done
        invariant
            n == s@.len(),
            cur <= n,
            !done ==> spec_split_path(s@, 0) == spec_vecs_view(acc@) + spec_split_path(
                s@,
                cur as int,
            ),
            done ==> spec_split_path(s@, 0) == spec_vecs_view(acc@),
        decreases n - cur, (if done { 0int } else { 1int }),
    {
        match find_sep(s, cur) {
            Some(j) => {
                let piece = vstd::slice::slice_to_vec(vstd::slice::slice_subrange(s, cur, j));
                let ghost acc0 = spec_vecs_view(acc@);
                acc.push(piece);
                proof {
                    assert(spec_vecs_view(acc@) =~= acc0.push(s@.subrange(cur as int, j as int)));
                    assert(spec_split_path(s@, cur as int) =~= seq![
                        s@.subrange(cur as int, j as int),
                    ] + spec_split_path(s@, j + 2));
                }
                cur = j + 2;
            },
            None => {
                let piece = vstd::slice::slice_to_vec(vstd::slice::slice_subrange(s, cur, n));
                let ghost acc0 = spec_vecs_view(acc@);
                acc.push(piece);
                proof {
                    assert(spec_vecs_view(acc@) =~= acc0.push(
                        s@.subrange(cur as int, n as int),
                    ));
                }
                done = true;
            },
        }
    }
    acc
}

// ------------------
// Qualified-path components
// ------------------

/// The path components of a demangled qualified symbol: a nested qualified
/// self type contributes its own components, otherwise the self type is
/// split as a plain path; the trailing path's components follow.
pub open spec fn spec_qpath_components(qself: Seq<u8>, pathy: Seq<u8>) -> Seq<Seq<u8>>
    decreases qself.len(),
{
    if qself.len() > 0 && qself[0] == 0x3cu8 {
        match spec_parse_qpath(qself) {
            QPathOutcome::Parsed(q2, t2, p2) => if q2.len() < qself.len() {
                spec_qpath_components(q2, p2) + spec_split_path(pathy, 0)
            } else {
                spec_split_path(qself, 0) + spec_split_path(pathy, 0)
            },
            QPathOutcome::Failed(_) => spec_split_path(qself, 0) + spec_split_path(pathy, 0),
        }
    } else {
        spec_split_path(qself, 0) + spec_split_path(pathy, 0)
    }
}

/// The path components of a parsed qualified symbol.
pub fn qpath_components(qpath: &QPath) -> (r: Result<Vec<Vec<u8>>, QPathError>)
    ensures
        r matches Ok(v) && spec_vecs_view(v@) == spec_qpath_components(
            qpath.qself@,
            qpath.pathy_bit@,
        ),
    decreases qpath.qself@.len(),
{
    let qs = qpath.qself.as_slice();
    proof {
        vstd::slice::axiom_spec_len(qs);
    }
    if qs.len() > 0 && *crate::codec::read_u8_ref(qs, 0) == 0x3c {
        match parse_qpath(qs) {
            Ok(sub) => {
                if sub.qself.len() < qpath.qself.len() {
                    let mut sub_components = match qpath_components(&sub) {
                        Ok(v) => v,
                        Err(e) => {
                            return Err(e);
                        },
                    };
                    let mut rest = split_path(qpath.pathy_bit.as_slice());
                    let ghost subv = spec_vecs_view(sub_components@);
                    let ghost restv = spec_vecs_view(rest@);
                    sub_components.append(&mut rest);
                    proof {
                        assert(spec_vecs_view(sub_components@) =~= subv + restv);
                    }
                    Ok(sub_components)
                } else {
                    proof {
                        assert(false);
                    }
                    Err(QPathError::NoClosingAngle)
                }
            },
            Err(_) => {
                let mut v = split_path(qs);
                let mut rest = split_path(qpath.pathy_bit.as_slice());
                let ghost v0 = spec_vecs_view(v@);
                let ghost restv = spec_vecs_view(rest@);
                v.append(&mut rest);
                proof {
                    assert(spec_vecs_view(v@) =~= v0 + restv);
                }
                Ok(v)
            },
        }
    } else {
        let mut v = split_path(qs);
        let mut rest = split_path(qpath.pathy_bit.as_slice());
        let ghost v0 = spec_vecs_view(v@);
        let ghost restv = spec_vecs_view(rest@);
        v.append(&mut rest);
        proof {
            assert(spec_vecs_view(v@) =~= v0 + restv);
        }
        Ok(v)
    }
}

// ------------------
// Reader-level helpers for the dump tool
// ------------------

/// The scan `section_name_of_offset` performs from section `i` on.
pub open spec fn spec_name_of_offset(d: Seq<u8>, shs: Seq<Shdr>, off: u64, i: int) -> ReadResult<
    (Seq<u8>, Offset),
>
    decreases shs.len() - i,
{
    if i < 0 || i >= shs.len() {
        Ok((Seq::empty(), Offset(off)))
    } else if off >= shs[i].offset.0 && off - shs[i].offset.0 < shs[i].size {
        match crate::read::spec_sh_string(d, shs[i].name) {
            Err(e) => Err(e),
            Ok(nm) => Ok((nm, Offset((off - shs[i].offset.0) as u64))),
        }
    } else {
        spec_name_of_offset(d, shs, off, i + 1)
    }
}

/// The name of the first section whose file range contains `offset`, and
/// the offset within it; an offset inside no section keeps its value and
/// gets an empty name.
pub fn section_name_of_offset<'a>(elf: ElfReader<'a>, offset: Offset) -> (r: ReadResult<
    (Vec<u8>, Offset),
>)
    ensures
        match crate::read::spec_section_headers(elf.data@) {
            Err(e) => r matches Err(e2) && e2 == e,
            Ok(shs) => match spec_name_of_offset(elf.data@, shs, offset.0, 0) {
                Ok((nm, o)) => r matches Ok(p) && p.0@ == nm && p.1 == o,
                Err(e) => r matches Err(e2) && e2 == e,
            },
        },
{
    let shs = match elf.section_headers() {
        Ok(v) => v,
        Err(e) => {
            return Err(e);
        },
    };
    let n = shs.len();
    let mut i: usize = 0;
    while i < n
        invariant
            n == shs@.len(),
            i <= n,
            crate::read::spec_section_headers(elf.data@) == Ok::<Seq<Shdr>, ElfReadError>(shs@),
            spec_name_of_offset(elf.data@, shs@, offset.0, 0) == spec_name_of_offset(
                elf.data@,
                shs@,
                offset.0,
                i as int,
            ),
        decreases n - i,
    {
        if offset.0 >= shs[i].offset.0 && offset.0 - shs[i].offset.0 < shs[i].size {
            let name = match elf.sh_string(shs[i].name) {
                Ok(b) => b,
                Err(e) => {
                    return Err(e);
                },
            };
            return Ok((vstd::slice::slice_to_vec(name), Offset(offset.0 - shs[i].offset.0)));
        }
        i = i + 1;
    }
    let empty: Vec<u8> = Vec::new();
    proof {
        assert(empty@ =~= Seq::<u8>::empty());
    }
    Ok((empty, offset))
}

/// What `sym_display_name` resolves: the owning section's name for section
/// symbols, else the symbol's own name.
pub open spec fn spec_sym_display_name(d: Seq<u8>, sym: Sym) -> ScanOutcome<Seq<u8>> {
    if sym.info.0 & 0xf == c::STT_SECTION {
        match crate::read::spec_section_header(d, sym.shndx) {
            Err(e) => ScanOutcome::Failed(e),
            Ok(sh) => match crate::read::spec_sh_string(d, sh.name) {
                Err(e) => ScanOutcome::Failed(e),
                Ok(nm) => ScanOutcome::Found(nm),
            },
        }
    } else {
        crate::read::spec_string(d, sym.name)
    }
}

/// The display name of a symbol: section symbols show their section's name.
pub fn sym_display_name<'a>(elf: ElfReader<'a>, sym: &Sym) -> (r: ReadResult<Vec<u8>>)
    ensures
        match spec_sym_display_name(elf.data@, *sym) {
            ScanOutcome::Found(nm) => r matches Ok(b) && b@ == nm,
            ScanOutcome::Failed(e) => r matches Err(e2) && e2 == e,
            ScanOutcome::Missing(k, nm) => r matches Err(e2) && (e2 matches
                ElfReadError::NotFoundByName { kind, name } && kind == k && name@ == nm),
        },
{
    if sym.info.0 & 0xf == c::STT_SECTION {
        let sh = match elf.section_header(sym.shndx) {
            Ok(sh) => sh,
            Err(e) => {
                return Err(e);
            },
        };
        match elf.sh_string(sh.name) {
            Ok(b) => Ok(vstd::slice::slice_to_vec(b)),
            Err(e) => Err(e),
        }
    } else {
        match elf.string(sym.name) {
            Ok(b) => Ok(vstd::slice::slice_to_vec(b)),
            Err(e) => Err(e),
        }
    }
}


// ------------------
// Symbol components
// ------------------

#[derive(Debug, Clone, Copy, PartialEq, Eq, Structural)]
pub enum SymNameError {
    /// The symbol's bytes are not UTF-8, so it cannot be demangled.
    InvalidUtf8,
}

/// The path components of a demangled name: qualified-path syntax when it
/// parses, a plain "::" split otherwise.
pub open spec fn spec_components_of(dm: Seq<u8>) -> Seq<Seq<u8>> {
    if dm.len() > 0 && dm[0] == 0x3cu8 {
        match spec_parse_qpath(dm) {
            QPathOutcome::Parsed(q, t, p) => spec_qpath_components(q, p),
            QPathOutcome::Failed(_) => spec_split_path(dm, 0),
        }
    } else {
        spec_split_path(dm, 0)
    }
}

/// Components trimmed or padded with "_" to exactly `depth` entries.
pub open spec fn spec_adjusted(cs: Seq<Seq<u8>>, depth: int) -> Seq<Seq<u8>> {
    if cs.len() >= depth {
        cs.take(depth)
    } else {
        cs + Seq::new((depth - cs.len()) as nat, |k: int| seq![0x5fu8])
    }
}

/// A component quoted when it holds the separator itself.
pub open spec fn spec_quote(c: Seq<u8>) -> Seq<u8> {
    if c.contains(0x2cu8) {
        seq![0x22u8] + c + seq![0x22u8]
    } else {
        c
    }
}

/// Components joined with commas, entries `i` on.
pub open spec fn spec_join_comma(cs: Seq<Seq<u8>>, i: int) -> Seq<u8>
    decreases cs.len() - i,
{
    if i < 0 || i >= cs.len() {
        Seq::empty()
    } else if i == cs.len() - 1 {
        spec_quote(cs[i])
    } else {
        spec_quote(cs[i]) + seq![0x2cu8] + spec_join_comma(cs, i + 1)
    }
}

/// What `symbol_components` renders: the demangled name itself, or its
/// components adjusted to `depth` and joined with commas for a table row.
pub open spec fn spec_symbol_components(dm: Seq<u8>, depth: int, csv: bool) -> Seq<u8> {
    if !csv {
        dm
    } else {
        spec_join_comma(spec_adjusted(spec_components_of(dm), depth), 0)
    }
}

/// Whether a byte occurs in a slice.
pub fn contains_byte(s: &[u8], b: u8) -> (r: bool)
    ensures
        r == s@.contains(b),
{
    proof {
        vstd::slice::axiom_spec_len(s);
    }
    let n = s.len();
    let mut i: usize = 0;
    while i < n
        invariant
            n == s@.len(),
            i <= n,
            forall|k: int| 0 <= k < i ==> s@[k] != b,
        decreases n - i,
    {
        if *crate::codec::read_u8_ref(s, i) == b {
            return true;
        }
        i = i + 1;
    }
    proof {
        assert(!s@.contains(b));
    }
    false
}

/// Render one symbol's demangled name, either whole or as a table row of
/// exactly `depth` comma-separated path components.
pub fn symbol_components(sym: &[u8], depth: usize, csv: bool) -> (r: Result<Vec<u8>, SymNameError>)
    ensures
        vstd::utf8::valid_utf8(sym@) ==> (r matches Ok(v) && v@ == spec_symbol_components(
            demangled_of(sym@),
            depth as int,
            csv,
        )),
        !vstd::utf8::valid_utf8(sym@) ==> r == Err::<Vec<u8>, SymNameError>(
            SymNameError::InvalidUtf8,
        ),
{
    let demangled = match demangle_bytes(sym) {
        Some(v) => v,
        None => {
            return Err(SymNameError::InvalidUtf8);
        },
    };
    if !csv {
        return Ok(demangled);
    }
    let ghost dm = demangled@;
    let ds = demangled.as_slice();
    proof {
        vstd::slice::axiom_spec_len(ds);
    }
    let mut components: Vec<Vec<u8>> = if ds.len() > 0 && *crate::codec::read_u8_ref(ds, 0)
        == 0x3c {
        match parse_qpath(ds) {
            Ok(qp) => match qpath_components(&qp) {
                Ok(v) => v,
                Err(_) => split_path(ds),
            },
            Err(_) => split_path(ds),
        }
    } else {
        split_path(ds)
    };
    proof {
        assert(spec_vecs_view(components@) == spec_components_of(dm));
    }
    let ghost cs0 = spec_vecs_view(components@);

    // Trim or pad to exactly `depth` components.
    if components.len() >= depth {
        components.truncate(depth);
        proof {
            assert(spec_vecs_view(components@) =~= spec_adjusted(cs0, depth as int));
        }
    } else {
        let need = depth - components.len();
        let mut k: usize = 0;
        while k < need
            invariant
                k <= need,
                components@.len() == cs0.len() + k,
                spec_vecs_view(components@) =~= cs0 + Seq::new(
                    k as nat,
                    |x: int| seq![0x5fu8],
                ),
            decreases need - k,
        {
            let mut pad: Vec<u8> = Vec::new();
            pad.push(0x5f);
            let ghost prev = spec_vecs_view(components@);
            components.push(pad);
            proof {
                assert(spec_vecs_view(components@) =~= prev.push(seq![0x5fu8]));
                assert(spec_vecs_view(components@) =~= cs0 + Seq::new(
                    (k + 1) as nat,
                    |x: int| seq![0x5fu8],
                ));
            }
            k = k + 1;
        }
        proof {
            assert(spec_vecs_view(components@) =~= spec_adjusted(cs0, depth as int));
        }
    }
    let ghost cs = spec_vecs_view(components@);

    // Join with commas, quoting a component that holds one itself.
    let mut out: Vec<u8> = Vec::new();
    let n = components.len();
    let mut i: usize = 0;
    while i < n
        invariant
            n == components@.len(),
            i <= n,
            cs == spec_vecs_view(components@),
            spec_join_comma(cs, 0) =~= out@ + spec_join_comma(cs, i as int),
        decreases n - i,
    {
        let piece = components[i].as_slice();
        proof {
            vstd::slice::axiom_spec_len(piece);
            assert(piece@ == cs[i as int]);
        }
        let ghost out0 = out@;
        let quoted = contains_byte(piece, 0x2c);
        if quoted {
            crate::codec::push_u8(&mut out, 0x22);
        }
        crate::codec::push_bytes(&mut out, piece);
        if quoted {
            crate::codec::push_u8(&mut out, 0x22);
        }
        proof {
            assert(out@ =~= out0 + spec_quote(cs[i as int]));
        }
        if i + 1 != n {
            crate::codec::push_u8(&mut out, 0x2c);
            proof {
                assert(out@ =~= out0 + spec_quote(cs[i as int]) + seq![0x2cu8]);
                assert(spec_join_comma(cs, 0) =~= out@ + spec_join_comma(cs, i as int + 1));
            }
        } else {
            proof {
                assert(spec_join_comma(cs, 0) =~= out@ + spec_join_comma(cs, i as int + 1));
            }
        }
        i = i + 1;
    }
    proof {
        assert(out@ =~= spec_join_comma(cs, 0));
    }
    Ok(out)
}

// ------------------
// Text symbol sizes
// ------------------

/// Insert a symbol into a value-sorted list, keeping it sorted.
fn insert_sym_sorted(v: &mut Vec<Sym>, x: Sym)
    requires
        forall|a: int, b: int|
            0 <= a < b < old(v)@.len()
                ==> (#[trigger] old(v)@[a]).value.0 <= (#[trigger] old(v)@[b]).value.0,
    ensures
        final(v)@.len() == old(v)@.len() + 1,
        forall|a: int, b: int|
            0 <= a < b < final(v)@.len()
                ==> (#[trigger] final(v)@[a]).value.0 <= (#[trigger] final(v)@[b]).value.0,
{
    let n = v.len();
    let mut pos: usize = 0;
    while pos < n && v[pos].value.0 <= x.value.0
        invariant
            n == v@.len(),
            pos <= n,
            v@ == old(v)@,
            forall|a: int| 0 <= a < pos ==> (#[trigger] v@[a]).value.0 <= x.value.0,
        decreases n - pos,
    {
        pos = pos + 1;
    }
    proof {
        assert(pos < n ==> v@[pos as int].value.0 > x.value.0);
    }
    v.insert(pos, x);
}

/// Insert a name-size pair into a size-descending list, keeping it sorted.
fn insert_pair_sorted(v: &mut Vec<(Vec<u8>, u64)>, x: (Vec<u8>, u64))
    requires
        forall|a: int, b: int|
            0 <= a < b < old(v)@.len() ==> (#[trigger] old(v)@[a]).1 >= (#[trigger] old(v)@[b]).1,
    ensures
        final(v)@.len() == old(v)@.len() + 1,
        forall|a: int, b: int|
            0 <= a < b < final(v)@.len()
                ==> (#[trigger] final(v)@[a]).1 >= (#[trigger] final(v)@[b]).1,
{
    let n = v.len();
    let mut pos: usize = 0;
    while pos < n && v[pos].1 >= x.1
        invariant
            n == v@.len(),
            pos <= n,
            v@ == old(v)@,
            forall|a: int| 0 <= a < pos ==> (#[trigger] v@[a]).1 >= x.1,
        decreases n - pos,
    {
        pos = pos + 1;
    }
    proof {
        assert(pos < n ==> v@[pos as int].1 < x.1);
    }
    v.insert(pos, x);
}

/// The sizes of the text section's symbols, largest first: symbols inside
/// the text section's address range are ordered by address, each symbol's
/// size is the distance to the next, and the resulting name-size pairs come
/// back sorted by size, descending. The last symbol in the range has no
/// successor to measure against and is not reported, as in a classic
/// bloat table.
pub fn text_symbol_sizes<'a>(elf: ElfReader<'a>) -> (r: ReadResult<Vec<(Vec<u8>, u64)>>)
    ensures
        r matches Ok(v) ==> forall|a: int, b: int|
            0 <= a < b < v@.len() ==> (#[trigger] v@[a]).1 >= (#[trigger] v@[b]).1,
{
    let name = crate::linker::text_name();
    let text = match elf.section_header_by_name(name.as_slice()) {
        Ok(sh) => sh,
        Err(e) => {
            return Err(e);
        },
    };
    let syms = match elf.symbols() {
        Ok(v) => v,
        Err(e) => {
            return Err(e);
        },
    };

    // Keep the symbols inside the text range, ordered by address.
    let mut sorted: Vec<Sym> = Vec::new();
    let nsyms = syms.len();
    let mut i: usize = 0;
    while i < nsyms
        invariant
            nsyms == syms@.len(),
            i <= nsyms,
            forall|a: int, b: int|
                0 <= a < b < sorted@.len() ==> (#[trigger] sorted@[a]).value.0 <= (
                #[trigger] sorted@[b]).value.0,
        decreases nsyms - i,
    {
        let sym = syms[i];
        if sym.value.0 >= text.addr.0 && sym.value.0 - text.addr.0 < text.size {
            insert_sym_sorted(&mut sorted, sym);
        }
        i = i + 1;
    }

    // Each symbol's size is the distance to its successor.
    let mut out: Vec<(Vec<u8>, u64)> = Vec::new();
    let nsorted = sorted.len();
    if nsorted >= 1 {
        let mut i: usize = 0;
        while i < nsorted - 1
            invariant
                nsorted == sorted@.len(),
                nsorted >= 1,
                i <= nsorted - 1,
                forall|a: int, b: int|
                    0 <= a < b < sorted@.len() ==> (#[trigger] sorted@[a]).value.0 <= (
                    #[trigger] sorted@[b]).value.0,
                forall|a: int, b: int|
                    0 <= a < b < out@.len() ==> (#[trigger] out@[a]).1 >= (#[trigger] out@[b]).1,
            decreases nsorted - i,
        {
            let first = sorted[i];
            let second = sorted[i + 1];
            let size = second.value.0 - first.value.0;
            let sym_name = match elf.string(first.name) {
                Ok(b) => b,
                Err(e) => {
                    return Err(e);
                },
            };
            insert_pair_sorted(&mut out, (vstd::slice::slice_to_vec(sym_name), size));
            i = i + 1;
        }
    }
    Ok(out)
}

} // verus!
