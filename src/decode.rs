use vstd::prelude::*;
use crate::checked::check_section;
use crate::code::{is_end, operators_view, read_body, spec_body, OperatorView};
use crate::entities::{read_func_type, read_global_type, read_memory, read_table, spec_func_type, spec_global_type, spec_limits, spec_table};
use crate::error::DecodeError;
use crate::model::{FuncImportInfo, FuncInfo, ImportDesc, LocalInfo, MemoryInfo, ModuleInfo, OtherImport, TableInfo, ValueType};
use crate::view::{empty_view, module_view, spec_decode, spec_sections, spec_step, ModuleView};
use crate::names::{decode_name_section, fn_names, same_but_names, spec_name_subsections};
use crate::reader::{lemma_uleb_cut, lemma_uleb_prefix, read_byte, read_name, read_u32, spec_byte, spec_name, spec_u32};

verus! {

/// The four bytes every module starts with: `\0asm`.
pub open spec fn has_magic(s: Seq<u8>) -> bool {
    s.len() >= 4 && s[0] == 0x00 && s[1] == 0x61 && s[2] == 0x73 && s[3] == 0x6d
}

/// The version field that follows the magic: 1, little-endian.
pub open spec fn has_version(s: Seq<u8>) -> bool {
    s.len() >= 8 && s[4] == 1 && s[5] == 0 && s[6] == 0 && s[7] == 0
}

/// The header of a section at `pos`: its id, then its payload's length.
/// Gives the id, where the payload starts and where it ends; a payload that
/// runs past the input is an unexpected end.
pub open spec fn spec_section_header(s: Seq<u8>, pos: int) -> Result<(u8, int, int), DecodeError> {
    match spec_byte(s, pos) {
        Ok((id, p)) => match spec_u32(s, p) {
            Ok((size, q)) => if q + size > s.len() {
                Err(DecodeError::UnexpectedEof)
            } else {
                Ok((id, q, q + size))
            },
            Err(e) => Err(e),
        },
        Err(e) => Err(e),
    }
}

/// An input whose first eight bytes are all zero is refused for its magic.
pub proof fn lemma_zero_header_rejected(s: Seq<u8>)
    requires
        s.len() >= 8,
        forall|i: int| 0 <= i < 8 ==> s[i] == 0,
    ensures
        !has_magic(s),
{
    assert(s[1] == 0);
}

/// Walks the section headers from `pos` to the end of the input: `Ok` when
/// each header's payload fits and the last one ends exactly at the end.
pub open spec fn section_walk(s: Seq<u8>, pos: int) -> Result<(), DecodeError>
    decreases s.len() - pos,
{
    if pos < 0 || pos >= s.len() {
        Ok(())
    } else {
        match spec_section_header(s, pos) {
            Ok((_, _, end)) => if end <= pos {
                Ok(())
            } else {
                section_walk(s, end)
            },
            Err(e) => Err(e),
        }
    }
}

proof fn lemma_header_advances(s: Seq<u8>, pos: int)
    ensures
        spec_section_header(s, pos) matches Ok((_, start, end)) ==> pos < start <= end <= s.len(),
{
    crate::reader::lemma_uleb_bounds(s, pos + 1, 5, 16);
}

proof fn lemma_walk_cut(s: Seq<u8>, pos: int)
    requires
        0 <= pos < s.len(),
        section_walk(s, pos) is Ok,
    ensures
        section_walk(s.take(s.len() - 1), pos) is Err,
    decreases s.len() - pos,
{
    let len = s.len() - 1;
    let t = s.take(len);
    lemma_header_advances(s, pos);
    let (_, start, end) = spec_section_header(s, pos)->Ok_0;
    assert(spec_byte(t, pos) == spec_byte(s, pos));
    if end < s.len() {
        lemma_uleb_prefix(s, len, pos + 1, 5, 16);
        assert(spec_section_header(t, pos) == spec_section_header(s, pos));
        lemma_walk_cut(s, end);
    } else if start < end {
        lemma_uleb_prefix(s, len, pos + 1, 5, 16);
    } else {
        lemma_uleb_cut(s, len, pos + 1, 5, 16);
    }
}

/// Cutting the last byte off an input whose sections are framed correctly
/// leaves a section that runs past the end: the walk fails, and so does any
/// decode of the shortened input.
pub proof fn lemma_truncated_input_rejected(s: Seq<u8>)
    requires
        s.len() > 8,
        section_walk(s, 8) is Ok,
    ensures
        section_walk(s.take(s.len() - 1), 8) is Err,
{
    lemma_walk_cut(s, 8);
}

/// Reads a section header.
pub fn read_section_header(bytes: &[u8], pos: usize) -> (r: Result<(u8, usize, usize), DecodeError>)
    ensures
        match r {
            Ok((id, start, end)) => spec_section_header(bytes@, pos as int) == Ok::<(u8, int, int), DecodeError>(
                (id, start as int, end as int),
            ) && pos < start <= end <= bytes.len(),
            Err(e) => spec_section_header(bytes@, pos as int) == Err::<(u8, int, int), DecodeError>(e),
        },
{
    let (id, p) = read_byte(bytes, pos)?;
    let (size, q) = read_u32(bytes, p)?;
    if size as usize > bytes.len() - q {
        return Err(DecodeError::UnexpectedEof);
    }
    Ok((id, q, q + size as usize))
}

/// `n` function type entries in a row, each as its parameter and result
/// types.
pub open spec fn spec_func_types(s: Seq<u8>, pos: int, n: nat) -> Result<(Seq<(Seq<ValueType>, Seq<ValueType>)>, int), DecodeError>
    decreases n,
{
    if n == 0 {
        Ok((Seq::empty(), pos))
    } else {
        match spec_func_type(s, pos) {
            Ok((params, results, p)) => match spec_func_types(s, p, (n - 1) as nat) {
                Ok((ts, e)) => Ok((seq![(params, results)] + ts, e)),
                Err(e) => Err(e),
            },
            Err(e) => Err(e),
        }
    }
}

/// A section payload that is a counted vector of entries must end exactly
/// where its last entry does.
pub open spec fn whole_payload<T>(s: Seq<u8>, r: Result<(T, int), DecodeError>) -> Result<T, DecodeError> {
    match r {
        Ok((v, e)) => if e == s.len() {
            Ok(v)
        } else {
            Err(DecodeError::TruncatedSection)
        },
        Err(e) => Err(e),
    }
}

/// The type section: a count, then that many function types.
pub open spec fn spec_type_section(s: Seq<u8>) -> Result<Seq<(Seq<ValueType>, Seq<ValueType>)>, DecodeError> {
    match spec_u32(s, 0) {
        Ok((n, p)) => whole_payload(s, spec_func_types(s, p, n)),
        Err(e) => Err(e),
    }
}

/// Reads the type section's entries and appends them to `m.types`.
pub fn decode_type_section(payload: &[u8], m: &mut ModuleInfo) -> (r: Result<(), DecodeError>)
    requires
        old(m).wf(),
    ensures
        final(m).wf(),
        final(m).other_imports == old(m).other_imports,
        final(m).tables == old(m).tables,
        final(m).memories == old(m).memories,
        final(m).func_imports == old(m).func_imports,
        final(m).functions == old(m).functions,
        final(m).start_func == old(m).start_func,
        match spec_type_section(payload@) {
            Ok(ts) => r is Ok && final(m).types@.len() == old(m).types@.len() + ts.len() && (forall|i: int|
                0 <= i < old(m).types@.len() ==> final(m).types@[i] == old(m).types@[i]) && (forall|i: int|
                0 <= i < ts.len() ==> ts[i] == (#[trigger] final(m).types@[old(m).types@.len() + i].params@, final(
                m).types@[old(m).types@.len() + i].results@)),
            Err(e) => r == Err::<(), DecodeError>(e),
        },
{
    let (n, p0) = read_u32(payload, 0)?;
    let mut p: usize = p0;
    let mut i: u32 = 0;
    let ghost base = m.types@.len();
    while i < n
        invariant
            m.wf(),
            m.other_imports == old(m).other_imports,
            m.tables == old(m).tables,
            m.memories == old(m).memories,
            m.func_imports == old(m).func_imports,
            m.functions == old(m).functions,
            m.start_func == old(m).start_func,
            base == old(m).types@.len(),
            m.types@.len() == base + i,
            forall|j: int| 0 <= j < base ==> m.types@[j] == old(m).types@[j],
            spec_u32(payload@, 0) == Ok::<(nat, int), DecodeError>((n as nat, p0 as int)),
            spec_func_types(payload@, p0 as int, n as nat) == match spec_func_types(payload@, p as int, (n - i) as nat) {
                Ok((ts, e)) => Ok((Seq::new(i as nat, |j: int| (m.types@[base + j].params@, m.types@[base + j].results@)) + ts, e)),
                Err(e) => Err::<(Seq<(Seq<ValueType>, Seq<ValueType>)>, int), DecodeError>(e),
            },
            p <= payload.len(),
            i <= n,
        decreases n - i,
    {
        let (ft, q) = read_func_type(payload, p)?;
        let ghost entry = (ft.params@, ft.results@);
        let ghost before = Seq::new(i as nat, |j: int| (m.types@[base + j].params@, m.types@[base + j].results@));
        m.types.push(ft);
        proof {
            let after = Seq::new((i + 1) as nat, |j: int| (m.types@[base + j].params@, m.types@[base + j].results@));
            assert(after =~= before.push(entry));
            if let Ok((ts, e)) = spec_func_types(payload@, q as int, (n - i - 1) as nat) {
                assert(before.push(entry) + ts =~= before + (seq![entry] + ts));
            }
        }
        p = q;
        i = i + 1;
    }
    proof {
        let all = Seq::new(n as nat, |j: int| (m.types@[base + j].params@, m.types@[base + j].results@));
        assert(all + Seq::empty() =~= all);
    }
    if p != payload.len() {
        return Err(DecodeError::TruncatedSection);
    }
    Ok(())
}

/// What one import entry brings in: a function of the given type, or
/// something else.
pub enum ImportKind {
    Function(u32),
    Other(ImportDesc),
}

/// One import entry: module name, field name, then a kind byte and what it
/// describes. A function import must name a type below `ntypes`.
pub open spec fn spec_import(s: Seq<u8>, pos: int, ntypes: nat) -> Result<(Seq<u8>, Seq<u8>, ImportKind, int), DecodeError> {
    match spec_name(s, pos) {
        Ok((module, q)) => match spec_name(s, q) {
            Ok((field, t)) => match spec_byte(s, t) {
                Ok((kind, u)) => if kind == 0 {
                    match spec_u32(s, u) {
                        Ok((type_id, e)) => if type_id >= ntypes {
                            Err(DecodeError::InvalidIndex)
                        } else {
                            Ok((module, field, ImportKind::Function(type_id as u32), e))
                        },
                        Err(e) => Err(e),
                    }
                } else if kind == 1 {
                    match spec_table(s, u) {
                        Ok((tb, e)) => Ok((module, field, ImportKind::Other(ImportDesc::Table(tb)), e)),
                        Err(e) => Err(e),
                    }
                } else if kind == 2 {
                    match spec_limits(s, u) {
                        Ok((l, e)) => Ok((module, field, ImportKind::Other(ImportDesc::Memory(MemoryInfo { limits: l })), e)),
                        Err(e) => Err(e),
                    }
                } else if kind == 3 {
                    match spec_global_type(s, u) {
                        Ok((ty, mutable, e)) => Ok((module, field, ImportKind::Other(ImportDesc::Global { ty, mutable }), e)),
                        Err(e) => Err(e),
                    }
                } else {
                    Err(DecodeError::InvalidForm)
                },
                Err(e) => Err(e),
            },
            Err(e) => Err(e),
        },
        Err(e) => Err(e),
    }
}

/// `n` import entries in a row.
pub open spec fn spec_imports(s: Seq<u8>, pos: int, n: nat, ntypes: nat) -> Result<(Seq<(Seq<u8>, Seq<u8>, ImportKind)>, int), DecodeError>
    decreases n,
{
    if n == 0 {
        Ok((Seq::empty(), pos))
    } else {
        match spec_import(s, pos, ntypes) {
            Ok((module, field, kind, p)) => match spec_imports(s, p, (n - 1) as nat, ntypes) {
                Ok((ts, e)) => Ok((seq![(module, field, kind)] + ts, e)),
                Err(e) => Err(e),
            },
            Err(e) => Err(e),
        }
    }
}

/// The import section: a count, then that many entries.
pub open spec fn spec_import_section(s: Seq<u8>, ntypes: nat) -> Result<Seq<(Seq<u8>, Seq<u8>, ImportKind)>, DecodeError> {
    match spec_u32(s, 0) {
        Ok((n, p)) => whole_payload(s, spec_imports(s, p, n, ntypes)),
        Err(e) => Err(e),
    }
}

/// The function imports among `entries`, in order, as module name, field
/// name and type index.
pub open spec fn function_imports(entries: Seq<(Seq<u8>, Seq<u8>, ImportKind)>) -> Seq<(Seq<u8>, Seq<u8>, u32)>
    decreases entries.len(),
{
    if entries.len() == 0 {
        Seq::empty()
    } else {
        let (module, field, kind) = entries.last();
        function_imports(entries.drop_last()) + match kind {
            ImportKind::Function(t) => seq![(module, field, t)],
            ImportKind::Other(_) => Seq::empty(),
        }
    }
}

/// The other imports among `entries`, in order.
pub open spec fn other_imports(entries: Seq<(Seq<u8>, Seq<u8>, ImportKind)>) -> Seq<(Seq<u8>, Seq<u8>, ImportDesc)>
    decreases entries.len(),
{
    if entries.len() == 0 {
        Seq::empty()
    } else {
        let (module, field, kind) = entries.last();
        other_imports(entries.drop_last()) + match kind {
            ImportKind::Function(_) => Seq::empty(),
            ImportKind::Other(d) => seq![(module, field, d)],
        }
    }
}

/// The function imports of a module as module name, field name and type
/// index.
pub open spec fn func_import_view(m: ModuleInfo) -> Seq<(Seq<u8>, Seq<u8>, u32)> {
    Seq::new(m.func_imports@.len(), |i: int| (m.func_imports@[i].module@, m.func_imports@[i].field@, m.func_imports@[i].type_id))
}

/// The other imports of a module as module name, field name and description.
pub open spec fn other_import_view(m: ModuleInfo) -> Seq<(Seq<u8>, Seq<u8>, ImportDesc)> {
    Seq::new(m.other_imports@.len(), |i: int| (m.other_imports@[i].module@, m.other_imports@[i].field@, m.other_imports@[i].desc))
}

/// Reads the import section. Function imports go to `m.func_imports`, with
/// no name yet, and must name an existing type; table, memory and global
/// imports go to `m.other_imports`. An unknown import kind is refused.
pub fn decode_import_section(payload: &[u8], m: &mut ModuleInfo) -> (r: Result<(), DecodeError>)
    requires
        old(m).wf(),
    ensures
        final(m).wf(),
        final(m).tables == old(m).tables,
        final(m).memories == old(m).memories,
        final(m).types == old(m).types,
        final(m).functions == old(m).functions,
        final(m).start_func == old(m).start_func,
        match spec_import_section(payload@, old(m).types@.len()) {
            Ok(entries) => r is Ok && func_import_view(*final(m)) == func_import_view(*old(m)) + function_imports(entries)
                && other_import_view(*final(m)) == other_import_view(*old(m)) + other_imports(entries)
                && (forall|i: int| old(m).func_imports@.len() <= i < final(m).func_imports@.len() ==> (#[trigger] final(m).func_imports@[i]).name is None)
                && (forall|i: int| 0 <= i < old(m).func_imports@.len() ==> final(m).func_imports@[i] == old(m).func_imports@[i]),
            Err(e) => r == Err::<(), DecodeError>(e),
        },
{
    let (n, p0) = read_u32(payload, 0)?;
    let mut p: usize = p0;
    let mut i: u32 = 0;
    let ghost nt = m.types@.len();
    let ghost done: Seq<(Seq<u8>, Seq<u8>, ImportKind)> = Seq::empty();
    while i < n
        invariant
            m.wf(),
            m.tables == old(m).tables,
            m.memories == old(m).memories,
            m.types == old(m).types,
            m.functions == old(m).functions,
            m.start_func == old(m).start_func,
            nt == old(m).types@.len(),
            spec_u32(payload@, 0) == Ok::<(nat, int), DecodeError>((n as nat, p0 as int)),
            spec_imports(payload@, p0 as int, n as nat, nt) == match spec_imports(payload@, p as int, (n - i) as nat, nt) {
                Ok((ts, e)) => Ok((done + ts, e)),
                Err(e) => Err::<(Seq<(Seq<u8>, Seq<u8>, ImportKind)>, int), DecodeError>(e),
            },
            func_import_view(*m) == func_import_view(*old(m)) + function_imports(done),
            other_import_view(*m) == other_import_view(*old(m)) + other_imports(done),
            m.func_imports@.len() >= old(m).func_imports@.len(),
            forall|j: int| old(m).func_imports@.len() <= j < m.func_imports@.len() ==> (#[trigger] m.func_imports@[j]).name is None,
            forall|j: int| 0 <= j < old(m).func_imports@.len() ==> m.func_imports@[j] == old(m).func_imports@[j],
            p <= payload.len(),
            i <= n,
        decreases n - i,
    {
        let ghost fv = func_import_view(*m);
        let ghost ov = other_import_view(*m);
        let (module, q) = read_name(payload, p)?;
        let (field, t) = read_name(payload, q)?;
        let (kind, u) = read_byte(payload, t)?;
        let ghost mv = module@;
        let ghost fdv = field@;
        let ghost entry_kind: ImportKind;
        if kind == 0 {
            let (type_id, e) = read_u32(payload, u)?;
            if type_id as usize >= m.types.len() {
                return Err(DecodeError::InvalidIndex);
            }
            m.func_imports.push(FuncImportInfo { module, field, type_id, name: None });
            proof {
                entry_kind = ImportKind::Function(type_id);
                assert(func_import_view(*m) =~= fv.push((mv, fdv, type_id)));
                assert(other_import_view(*m) =~= ov);
            }
            p = e;
        } else if kind == 1 {
            let (table, e) = read_table(payload, u)?;
            m.other_imports.push(OtherImport { module, field, desc: ImportDesc::Table(table) });
            proof {
                entry_kind = ImportKind::Other(ImportDesc::Table(table));
                assert(func_import_view(*m) =~= fv);
                assert(other_import_view(*m) =~= ov.push((mv, fdv, ImportDesc::Table(table))));
            }
            p = e;
        } else if kind == 2 {
            let (memory, e) = read_memory(payload, u)?;
            m.other_imports.push(OtherImport { module, field, desc: ImportDesc::Memory(memory) });
            proof {
                entry_kind = ImportKind::Other(ImportDesc::Memory(memory));
                assert(func_import_view(*m) =~= fv);
                assert(other_import_view(*m) =~= ov.push((mv, fdv, ImportDesc::Memory(memory))));
            }
            p = e;
        } else if kind == 3 {
            let (desc, e) = read_global_type(payload, u)?;
            m.other_imports.push(OtherImport { module, field, desc });
            proof {
                entry_kind = ImportKind::Other(desc);
                assert(func_import_view(*m) =~= fv);
                assert(other_import_view(*m) =~= ov.push((mv, fdv, desc)));
            }
            p = e;
        } else {
            return Err(DecodeError::InvalidForm);
        }
        proof {
            let entry = (mv, fdv, entry_kind);
            let done2 = done.push(entry);
            assert(done2.drop_last() =~= done);
            if let Ok((ts, e)) = spec_imports(payload@, p as int, (n - i - 1) as nat, nt) {
                assert(done2 + ts =~= done + (seq![entry] + ts));
            }
            assert(function_imports(done2) =~= function_imports(done) + match entry_kind {
                ImportKind::Function(t) => seq![(mv, fdv, t)],
                ImportKind::Other(_) => Seq::empty(),
            });
            assert(other_imports(done2) =~= other_imports(done) + match entry_kind {
                ImportKind::Function(_) => Seq::empty(),
                ImportKind::Other(d) => seq![(mv, fdv, d)],
            });
            done = done2;
        }
        i = i + 1;
    }
    proof {
        assert(done + Seq::empty() =~= done);
    }
    if p != payload.len() {
        return Err(DecodeError::TruncatedSection);
    }
    Ok(())
}

/// `n` type indices in a row, each of which must be below `ntypes`.
pub open spec fn spec_type_ids(s: Seq<u8>, pos: int, n: nat, ntypes: nat) -> Result<(Seq<u32>, int), DecodeError>
    decreases n,
{
    if n == 0 {
        Ok((Seq::empty(), pos))
    } else {
        match spec_u32(s, pos) {
            Ok((t, p)) => if t >= ntypes {
                Err(DecodeError::InvalidIndex)
            } else {
                match spec_type_ids(s, p, (n - 1) as nat, ntypes) {
                    Ok((ts, e)) => Ok((seq![t as u32] + ts, e)),
                    Err(e) => Err(e),
                }
            },
            Err(e) => Err(e),
        }
    }
}

/// The function section: a count, then one type index per local function.
pub open spec fn spec_function_section(s: Seq<u8>, ntypes: nat) -> Result<Seq<u32>, DecodeError> {
    match spec_u32(s, 0) {
        Ok((n, p)) => whole_payload(s, spec_type_ids(s, p, n, ntypes)),
        Err(e) => Err(e),
    }
}

/// A local function as declared by the function section, before its body
/// has been read.
pub open spec fn declared_only(f: FuncInfo, type_id: u32) -> bool {
    f.type_id == type_id && f.locals@.len() == 0 && f.code@.len() == 0 && f.name is None
}

/// Reads the function section: one type index per local function, each of
/// which must name an existing type.
pub fn decode_function_section(payload: &[u8], m: &mut ModuleInfo) -> (r: Result<(), DecodeError>)
    requires
        old(m).wf(),
    ensures
        final(m).wf(),
        final(m).other_imports == old(m).other_imports,
        final(m).tables == old(m).tables,
        final(m).memories == old(m).memories,
        final(m).types == old(m).types,
        final(m).func_imports == old(m).func_imports,
        final(m).start_func == old(m).start_func,
        match spec_function_section(payload@, old(m).types@.len()) {
            Ok(ids) => r is Ok && final(m).functions@.len() == old(m).functions@.len() + ids.len() && (forall|i: int|
                0 <= i < old(m).functions@.len() ==> final(m).functions@[i] == old(m).functions@[i]) && (forall|i: int|
                0 <= i < ids.len() ==> declared_only(#[trigger] final(m).functions@[old(m).functions@.len() + i], ids[i])),
            Err(e) => r == Err::<(), DecodeError>(e),
        },
{
    let (n, p0) = read_u32(payload, 0)?;
    let mut p: usize = p0;
    let mut i: u32 = 0;
    let ghost base = m.functions@.len();
    let ghost nt = m.types@.len();
    while i < n
        invariant
            m.wf(),
            m.other_imports == old(m).other_imports,
            m.tables == old(m).tables,
            m.memories == old(m).memories,
            m.types == old(m).types,
            m.func_imports == old(m).func_imports,
            m.start_func == old(m).start_func,
            base == old(m).functions@.len(),
            nt == old(m).types@.len(),
            m.functions@.len() == base + i,
            forall|j: int| 0 <= j < base ==> m.functions@[j] == old(m).functions@[j],
            forall|j: int| 0 <= j < i ==> declared_only(#[trigger] m.functions@[base + j], m.functions@[base + j].type_id),
            spec_u32(payload@, 0) == Ok::<(nat, int), DecodeError>((n as nat, p0 as int)),
            spec_type_ids(payload@, p0 as int, n as nat, nt) == match spec_type_ids(payload@, p as int, (n - i) as nat, nt) {
                Ok((ts, e)) => Ok((Seq::new(i as nat, |j: int| m.functions@[base + j].type_id) + ts, e)),
                Err(e) => Err::<(Seq<u32>, int), DecodeError>(e),
            },
            p <= payload.len(),
            i <= n,
        decreases n - i,
    {
        let (type_id, q) = read_u32(payload, p)?;
        if type_id as usize >= m.types.len() {
            return Err(DecodeError::InvalidIndex);
        }
        let ghost before = Seq::new(i as nat, |j: int| m.functions@[base + j].type_id);
        m.functions.push(FuncInfo { type_id, locals: Vec::new(), code: Vec::new(), name: None });
        proof {
            let after = Seq::new((i + 1) as nat, |j: int| m.functions@[base + j].type_id);
            assert(after =~= before.push(type_id));
            if let Ok((ts, e)) = spec_type_ids(payload@, q as int, (n - i - 1) as nat, nt) {
                assert(before.push(type_id) + ts =~= before + (seq![type_id] + ts));
            }
            assert forall|j: int| 0 <= j < i + 1 implies declared_only(#[trigger] m.functions@[base + j], m.functions@[base + j].type_id) by {
                if j < i {
                    assert(declared_only(m.functions@[base + j], m.functions@[base + j].type_id));
                }
            }
        }
        p = q;
        i = i + 1;
    }
    proof {
        let all = Seq::new(n as nat, |j: int| m.functions@[base + j].type_id);
        assert(all + Seq::empty() =~= all);
    }
    if p != payload.len() {
        return Err(DecodeError::TruncatedSection);
    }
    Ok(())
}

/// `n` table entries in a row.
pub open spec fn spec_tables(s: Seq<u8>, pos: int, n: nat) -> Result<(Seq<TableInfo>, int), DecodeError>
    decreases n,
{
    if n == 0 {
        Ok((Seq::empty(), pos))
    } else {
        match spec_table(s, pos) {
            Ok((t, p)) => match spec_tables(s, p, (n - 1) as nat) {
                Ok((ts, e)) => Ok((seq![t] + ts, e)),
                Err(e) => Err(e),
            },
            Err(e) => Err(e),
        }
    }
}

/// The table section: a count, then that many entries.
pub open spec fn spec_table_section(s: Seq<u8>) -> Result<Seq<TableInfo>, DecodeError> {
    match spec_u32(s, 0) {
        Ok((n, p)) => whole_payload(s, spec_tables(s, p, n)),
        Err(e) => Err(e),
    }
}

/// Reads the table section.
pub fn decode_table_section(payload: &[u8], m: &mut ModuleInfo) -> (r: Result<(), DecodeError>)
    requires
        old(m).wf(),
    ensures
        final(m).wf(),
        final(m).other_imports == old(m).other_imports,
        final(m).memories == old(m).memories,
        final(m).types == old(m).types,
        final(m).func_imports == old(m).func_imports,
        final(m).functions == old(m).functions,
        final(m).start_func == old(m).start_func,
        match spec_table_section(payload@) {
            Ok(ts) => r is Ok && final(m).tables@ == old(m).tables@ + ts,
            Err(e) => r == Err::<(), DecodeError>(e),
        },
{
    let (n, p0) = read_u32(payload, 0)?;
    let mut p: usize = p0;
    let mut i: u32 = 0;
    while i < n
        invariant
            m.wf(),
            m.other_imports == old(m).other_imports,
            m.memories == old(m).memories,
            m.types == old(m).types,
            m.func_imports == old(m).func_imports,
            m.functions == old(m).functions,
            m.start_func == old(m).start_func,
            m.tables@.len() >= old(m).tables@.len(),
            spec_u32(payload@, 0) == Ok::<(nat, int), DecodeError>((n as nat, p0 as int)),
            spec_tables(payload@, p0 as int, n as nat) == match spec_tables(payload@, p as int, (n - i) as nat) {
                Ok((ts, e)) => Ok((m.tables@.subrange(old(m).tables@.len() as int, m.tables@.len() as int) + ts, e)),
                Err(e) => Err::<(Seq<TableInfo>, int), DecodeError>(e),
            },
            m.tables@.subrange(0, old(m).tables@.len() as int) == old(m).tables@,
            p <= payload.len(),
            i <= n,
        decreases n - i,
    {
        let (t, q) = read_table(payload, p)?;
        let ghost before = m.tables@;
        m.tables.push(t);
        proof {
            let k = old(m).tables@.len() as int;
            assert(m.tables@.subrange(k, m.tables@.len() as int) =~= before.subrange(k, before.len() as int).push(t));
            assert(m.tables@.subrange(0, k) =~= before.subrange(0, k));
            if let Ok((ts, e)) = spec_tables(payload@, q as int, (n - i - 1) as nat) {
                assert(before.subrange(k, before.len() as int).push(t) + ts =~= before.subrange(k, before.len() as int) + (seq![t] + ts));
            }
        }
        p = q;
        i = i + 1;
    }
    proof {
        let k = old(m).tables@.len() as int;
        let added = m.tables@.subrange(k, m.tables@.len() as int);
        assert(added + Seq::empty() =~= added);
        assert(m.tables@ =~= old(m).tables@ + added);
    }
    if p != payload.len() {
        return Err(DecodeError::TruncatedSection);
    }
    Ok(())
}

/// A memory entry: its limits.
pub open spec fn spec_memory(s: Seq<u8>, pos: int) -> Result<(MemoryInfo, int), DecodeError> {
    match spec_limits(s, pos) {
        Ok((l, e)) => Ok((MemoryInfo { limits: l }, e)),
        Err(e) => Err(e),
    }
}

/// `n` memory entries in a row.
pub open spec fn spec_memories(s: Seq<u8>, pos: int, n: nat) -> Result<(Seq<MemoryInfo>, int), DecodeError>
    decreases n,
{
    if n == 0 {
        Ok((Seq::empty(), pos))
    } else {
        match spec_memory(s, pos) {
            Ok((t, p)) => match spec_memories(s, p, (n - 1) as nat) {
                Ok((ts, e)) => Ok((seq![t] + ts, e)),
                Err(e) => Err(e),
            },
            Err(e) => Err(e),
        }
    }
}

/// The memory section: a count, then that many entries.
pub open spec fn spec_memory_section(s: Seq<u8>) -> Result<Seq<MemoryInfo>, DecodeError> {
    match spec_u32(s, 0) {
        Ok((n, p)) => whole_payload(s, spec_memories(s, p, n)),
        Err(e) => Err(e),
    }
}

/// Reads the memory section.
pub fn decode_memory_section(payload: &[u8], m: &mut ModuleInfo) -> (r: Result<(), DecodeError>)
    requires
        old(m).wf(),
    ensures
        final(m).wf(),
        final(m).other_imports == old(m).other_imports,
        final(m).tables == old(m).tables,
        final(m).types == old(m).types,
        final(m).func_imports == old(m).func_imports,
        final(m).functions == old(m).functions,
        final(m).start_func == old(m).start_func,
        match spec_memory_section(payload@) {
            Ok(ts) => r is Ok && final(m).memories@ == old(m).memories@ + ts,
            Err(e) => r == Err::<(), DecodeError>(e),
        },
{
    let (n, p0) = read_u32(payload, 0)?;
    let mut p: usize = p0;
    let mut i: u32 = 0;
    while i < n
        invariant
            m.wf(),
            m.other_imports == old(m).other_imports,
            m.tables == old(m).tables,
            m.types == old(m).types,
            m.func_imports == old(m).func_imports,
            m.functions == old(m).functions,
            m.start_func == old(m).start_func,
            m.memories@.len() >= old(m).memories@.len(),
            spec_u32(payload@, 0) == Ok::<(nat, int), DecodeError>((n as nat, p0 as int)),
            spec_memories(payload@, p0 as int, n as nat) == match spec_memories(payload@, p as int, (n - i) as nat) {
                Ok((ts, e)) => Ok((m.memories@.subrange(old(m).memories@.len() as int, m.memories@.len() as int) + ts, e)),
                Err(e) => Err::<(Seq<MemoryInfo>, int), DecodeError>(e),
            },
            m.memories@.subrange(0, old(m).memories@.len() as int) == old(m).memories@,
            p <= payload.len(),
            i <= n,
        decreases n - i,
    {
        let (t, q) = read_memory(payload, p)?;
        let ghost before = m.memories@;
        m.memories.push(t);
        proof {
            let k = old(m).memories@.len() as int;
            assert(m.memories@.subrange(k, m.memories@.len() as int) =~= before.subrange(k, before.len() as int).push(t));
            assert(m.memories@.subrange(0, k) =~= before.subrange(0, k));
            if let Ok((ts, e)) = spec_memories(payload@, q as int, (n - i - 1) as nat) {
                assert(before.subrange(k, before.len() as int).push(t) + ts =~= before.subrange(k, before.len() as int) + (seq![t] + ts));
            }
        }
        p = q;
        i = i + 1;
    }
    proof {
        let k = old(m).memories@.len() as int;
        let added = m.memories@.subrange(k, m.memories@.len() as int);
        assert(added + Seq::empty() =~= added);
        assert(m.memories@ =~= old(m).memories@ + added);
    }
    if p != payload.len() {
        return Err(DecodeError::TruncatedSection);
    }
    Ok(())
}

/// The start section: the index of a function below `nfuncs`, filling the
/// payload exactly.
pub open spec fn spec_start_section(s: Seq<u8>, nfuncs: nat) -> Result<u32, DecodeError> {
    match spec_u32(s, 0) {
        Ok((index, e)) => if e != s.len() {
            Err(DecodeError::TruncatedSection)
        } else if index >= nfuncs {
            Err(DecodeError::InvalidIndex)
        } else {
            Ok(index as u32)
        },
        Err(e) => Err(e),
    }
}

/// Reads the start section: the index of a function of the module.
pub fn decode_start_section(payload: &[u8], m: &mut ModuleInfo) -> (r: Result<(), DecodeError>)
    requires
        old(m).wf(),
    ensures
        final(m).wf(),
        final(m).types == old(m).types,
        final(m).func_imports == old(m).func_imports,
        final(m).functions == old(m).functions,
        final(m).other_imports == old(m).other_imports,
        final(m).tables == old(m).tables,
        final(m).memories == old(m).memories,
        match spec_start_section(payload@, old(m).num_funcs() as nat) {
            Ok(index) => r is Ok && final(m).start_func == Some(index),
            Err(e) => r == Err::<(), DecodeError>(e),
        },
{
    let (index, p) = read_u32(payload, 0)?;
    if p != payload.len() {
        return Err(DecodeError::TruncatedSection);
    }
    if index as usize >= m.func_imports.len() && index as usize - m.func_imports.len() >= m.functions.len() {
        return Err(DecodeError::InvalidIndex);
    }
    m.start_func = Some(index);
    Ok(())
}

/// `n` function bodies in a row, each a size followed by that many bytes
/// that make up one whole body.
pub open spec fn spec_bodies(s: Seq<u8>, pos: int, n: nat) -> Result<(Seq<(Seq<LocalInfo>, Seq<OperatorView>)>, int), DecodeError>
    decreases n,
{
    if n == 0 {
        Ok((Seq::empty(), pos))
    } else {
        match spec_u32(s, pos) {
            Ok((size, q)) => if q + size > s.len() {
                Err(DecodeError::UnexpectedEof)
            } else {
                match spec_body(s.subrange(q, q + size)) {
                    Ok(b) => match spec_bodies(s, q + size, (n - 1) as nat) {
                        Ok((bs, e)) => Ok((seq![b] + bs, e)),
                        Err(e) => Err(e),
                    },
                    Err(e) => Err(e),
                }
            },
            Err(e) => Err(e),
        }
    }
}

/// The code section: a count, which must equal the number of local
/// functions, then that many bodies.
pub open spec fn spec_code_section(s: Seq<u8>, nfuncs: nat) -> Result<Seq<(Seq<LocalInfo>, Seq<OperatorView>)>, DecodeError> {
    match spec_u32(s, 0) {
        Ok((n, p)) => if n != nfuncs {
            Err(DecodeError::FunctionCountMismatch)
        } else {
            whole_payload(s, spec_bodies(s, p, n))
        },
        Err(e) => Err(e),
    }
}

/// The locals and instructions of the first `count` local functions of `m`.
pub open spec fn bodies_view(m: ModuleInfo, count: nat) -> Seq<(Seq<LocalInfo>, Seq<OperatorView>)> {
    Seq::new(count, |j: int| (m.functions@[j].locals@, operators_view(m.functions@[j].code@)))
}

/// Reads the code section: one body per local function, in order. The
/// number of bodies must match the function section.
pub fn decode_code_section(payload: &[u8], m: &mut ModuleInfo) -> (r: Result<(), DecodeError>)
    requires
        old(m).wf(),
    ensures
        final(m).wf(),
        final(m).other_imports == old(m).other_imports,
        final(m).tables == old(m).tables,
        final(m).memories == old(m).memories,
        final(m).types == old(m).types,
        final(m).func_imports == old(m).func_imports,
        final(m).functions@.len() == old(m).functions@.len(),
        final(m).start_func == old(m).start_func,
        forall|i: int| 0 <= i < final(m).functions@.len() ==> (#[trigger] final(m).functions@[i]).type_id == old(m).functions@[i].type_id
            && final(m).functions@[i].name == old(m).functions@[i].name,
        match spec_code_section(payload@, old(m).functions@.len()) {
            Ok(bodies) => r is Ok && bodies_view(*final(m), bodies.len()) == bodies,
            Err(e) => r == Err::<(), DecodeError>(e),
        },
        r is Ok ==> forall|i: int| 0 <= i < final(m).functions@.len() ==> (#[trigger] final(m).functions@[i]).code@.len() >= 1
            && is_end(final(m).functions@[i].code@.last()),
{
    let (n, p0) = read_u32(payload, 0)?;
    if n as usize != m.functions.len() {
        return Err(DecodeError::FunctionCountMismatch);
    }
    let mut p: usize = p0;
    let mut i: usize = 0;
    while i < n as usize
        invariant
            m.wf(),
            m.other_imports == old(m).other_imports,
            m.tables == old(m).tables,
            m.memories == old(m).memories,
            m.types == old(m).types,
            m.func_imports == old(m).func_imports,
            m.functions@.len() == old(m).functions@.len(),
            m.start_func == old(m).start_func,
            forall|j: int| 0 <= j < m.functions@.len() ==> (#[trigger] m.functions@[j]).type_id == old(m).functions@[j].type_id
                && m.functions@[j].name == old(m).functions@[j].name,
            forall|j: int| 0 <= j < i ==> (#[trigger] m.functions@[j]).code@.len() >= 1 && is_end(m.functions@[j].code@.last()),
            n as int == m.functions@.len(),
            spec_u32(payload@, 0) == Ok::<(nat, int), DecodeError>((n as nat, p0 as int)),
            spec_bodies(payload@, p0 as int, n as nat) == match spec_bodies(payload@, p as int, (n - i) as nat) {
                Ok((bs, e)) => Ok((bodies_view(*m, i as nat) + bs, e)),
                Err(e) => Err::<(Seq<(Seq<LocalInfo>, Seq<OperatorView>)>, int), DecodeError>(e),
            },
            p <= payload.len(),
            i <= n,
        decreases n - i,
    {
        let ghost before = bodies_view(*m, i as nat);
        let (size, q) = read_u32(payload, p)?;
        if size as usize > payload.len() - q {
            return Err(DecodeError::UnexpectedEof);
        }
        let end = q + size as usize;
        let (locals, code) = read_body(&payload[q..end])?;
        let ghost b = (locals@, operators_view(code@));
        m.functions[i].locals = locals;
        m.functions[i].code = code;
        proof {
            assert(bodies_view(*m, (i + 1) as nat) =~= before.push(b));
            if let Ok((bs, e)) = spec_bodies(payload@, end as int, (n - i - 1) as nat) {
                assert(before.push(b) + bs =~= before + (seq![b] + bs));
            }
        }
        p = end;
        i = i + 1;
    }
    proof {
        let all = bodies_view(*m, n as nat);
        assert(all + Seq::empty() =~= all);
    }
    if p != payload.len() {
        return Err(DecodeError::TruncatedSection);
    }
    Ok(())
}

/// Reads a custom section. The one named `name` carries function names and
/// is decoded; any other is skipped.
pub fn decode_custom_section(payload: &[u8], m: &mut ModuleInfo) -> (r: Result<(), DecodeError>)
    requires
        old(m).wf(),
    ensures
        final(m).wf(),
        same_but_names(*old(m), *final(m)),
        match spec_name(payload@, 0) {
            Ok((section_name, p)) => if section_name == seq![0x6eu8, 0x61u8, 0x6du8, 0x65u8] {
                match spec_name_subsections(payload@, p, fn_names(*old(m))) {
                    Ok(names) => r is Ok && fn_names(*final(m)) == names,
                    Err(e) => r == Err::<(), DecodeError>(e),
                }
            } else {
                r is Ok && *final(m) == *old(m)
            },
            Err(e) => r == Err::<(), DecodeError>(e),
        },
{
    let (section_name, p) = read_name(payload, 0)?;
    if section_name.len() == 4 && section_name[0] == 0x6e && section_name[1] == 0x61 && section_name[2] == 0x6d
        && section_name[3] == 0x65 {
        proof {
            assert(section_name@ =~= seq![0x6eu8, 0x61u8, 0x6du8, 0x65u8]);
        }
        decode_name_section(payload, p, m)
    } else {
        proof {
            if section_name@ == seq![0x6eu8, 0x61u8, 0x6du8, 0x65u8] {
                assert(section_name@[0] == 0x6e);
            }
        }
        Ok(())
    }
}

proof fn lemma_bodies_len(s: Seq<u8>, pos: int, n: nat)
    ensures
        spec_bodies(s, pos, n) matches Ok((bs, _)) ==> bs.len() == n,
    decreases n,
{
    if n > 0 {
        if let Ok((size, q)) = spec_u32(s, pos) {
            lemma_bodies_len(s, q + size, (n - 1) as nat);
        }
    }
}

proof fn lemma_type_step(m0: ModuleInfo, m1: ModuleInfo, p: Seq<u8>)
    requires
        m1.func_imports == m0.func_imports,
        m1.functions == m0.functions,
        m1.other_imports == m0.other_imports,
        m1.start_func == m0.start_func,
        m1.tables == m0.tables,
        m1.memories == m0.memories,
        spec_type_section(p) matches Ok(ts) && m1.types@.len() == m0.types@.len() + ts.len() && (forall|i: int|
            0 <= i < m0.types@.len() ==> m1.types@[i] == m0.types@[i]) && (forall|i: int|
            0 <= i < ts.len() ==> ts[i] == (#[trigger] m1.types@[m0.types@.len() + i].params@, m1.types@[
            m0.types@.len() + i].results@)),
    ensures
        spec_step(module_view(m0), 1, p) == Ok::<ModuleView, DecodeError>(module_view(m1)),
{
    let ts = spec_type_section(p)->Ok_0;
    let v0 = module_view(m0);
    let v1 = module_view(m1);
    let n0 = m0.types@.len() as int;
    assert forall|j: int| 0 <= j < v1.types.len() implies #[trigger] v1.types[j] == (v0.types + ts)[j] by {
        if j >= n0 {
            assert(ts[j - n0] == (m1.types@[n0 + (j - n0)].params@, m1.types@[n0 + (j - n0)].results@));
        } else {
            assert(m1.types@[j] == m0.types@[j]);
        }
    }
    assert(v1.types =~= v0.types + ts);
}

proof fn lemma_import_step(m0: ModuleInfo, m1: ModuleInfo, p: Seq<u8>)
    requires
        m1.types == m0.types,
        m1.functions == m0.functions,
        m1.start_func == m0.start_func,
        m1.tables == m0.tables,
        m1.memories == m0.memories,
        spec_import_section(p, m0.types@.len()) matches Ok(entries) && func_import_view(m1) == func_import_view(m0)
            + function_imports(entries) && other_import_view(m1) == other_import_view(m0) + other_imports(entries),
        forall|i: int| m0.func_imports@.len() <= i < m1.func_imports@.len() ==> (#[trigger] m1.func_imports@[i]).name is None,
        forall|i: int| 0 <= i < m0.func_imports@.len() ==> m1.func_imports@[i] == m0.func_imports@[i],
    ensures
        spec_step(module_view(m0), 2, p) == Ok::<ModuleView, DecodeError>(module_view(m1)),
{
    let entries = spec_import_section(p, m0.types@.len())->Ok_0;
    let v0 = module_view(m0);
    let v1 = module_view(m1);
    assert(func_import_view(m1).len() == m1.func_imports@.len());
    assert(func_import_view(m0).len() == m0.func_imports@.len());
    assert forall|j: int| 0 <= j < v1.import_names.len() implies #[trigger] v1.import_names[j] == (v0.import_names + Seq::new(function_imports(entries).len(), |i: int| None::<Seq<u8>>))[j] by {
        if j < m0.func_imports@.len() {
            assert(m1.func_imports@[j] == m0.func_imports@[j]);
        } else {
            assert(m1.func_imports@[j].name is None);
        }
    }
    assert(v1.import_names =~= v0.import_names + Seq::new(function_imports(entries).len(), |i: int| None::<Seq<u8>>));
    assert(v1 == spec_step(v0, 2, p)->Ok_0);
}

proof fn lemma_function_step(m0: ModuleInfo, m1: ModuleInfo, p: Seq<u8>)
    requires
        m1.types == m0.types,
        m1.func_imports == m0.func_imports,
        m1.other_imports == m0.other_imports,
        m1.start_func == m0.start_func,
        m1.tables == m0.tables,
        m1.memories == m0.memories,
        spec_function_section(p, m0.types@.len()) matches Ok(ids) && m1.functions@.len() == m0.functions@.len() + ids.len()
            && (forall|i: int| 0 <= i < m0.functions@.len() ==> m1.functions@[i] == m0.functions@[i]) && (forall|i: int|
            0 <= i < ids.len() ==> declared_only(#[trigger] m1.functions@[m0.functions@.len() + i], ids[i])),
    ensures
        spec_step(module_view(m0), 3, p) == Ok::<ModuleView, DecodeError>(module_view(m1)),
{
    let ids = spec_function_section(p, m0.types@.len())->Ok_0;
    let v0 = module_view(m0);
    let v1 = module_view(m1);
    let n0 = m0.functions@.len() as int;
    assert forall|i: int| 0 <= i < ids.len() implies #[trigger] m1.functions@[n0 + i].type_id == ids[i] && m1.functions@[n0 + i].locals@ =~= Seq::<LocalInfo>::empty()
        && operators_view(m1.functions@[n0 + i].code@) =~= Seq::<OperatorView>::empty() && m1.functions@[n0 + i].name is None by {
        assert(declared_only(m1.functions@[n0 + i], ids[i]));
    }
    assert forall|j: int| 0 <= j < n0 implies #[trigger] m1.functions@[j] == m0.functions@[j] by {}
    let empties = Seq::new(ids.len(), |i: int| (Seq::<LocalInfo>::empty(), Seq::<OperatorView>::empty()));
    let nones = Seq::new(ids.len(), |i: int| None::<Seq<u8>>);
    assert forall|j: int| 0 <= j < v1.func_types.len() implies #[trigger] v1.func_types[j] == (v0.func_types + ids)[j]
        && v1.bodies[j] == (v0.bodies + empties)[j] && v1.func_names[j] == (v0.func_names + nones)[j] by {
        if j >= n0 {
            let k = j - n0;
            assert(declared_only(m1.functions@[n0 + k], ids[k]));
            assert(m1.functions@[n0 + k].locals@ =~= Seq::<LocalInfo>::empty());
            assert(operators_view(m1.functions@[n0 + k].code@) =~= Seq::<OperatorView>::empty());
        } else {
            assert(m1.functions@[j] == m0.functions@[j]);
        }
    }
    assert(v1.func_types =~= v0.func_types + ids);
    assert(v1.bodies.len() == (v0.bodies + empties).len());
    assert forall|j: int| 0 <= j < v1.bodies.len() implies #[trigger] v1.bodies[j] == (v0.bodies + empties)[j] by {
        assert(v1.bodies[j] == (m1.functions@[j].locals@, operators_view(m1.functions@[j].code@)));
        if j >= n0 {
            assert(v1.func_types[j] == (v0.func_types + ids)[j]);
            assert((v0.bodies + empties)[j] == empties[j - n0]);
        } else {
            assert(v0.bodies[j] == (m0.functions@[j].locals@, operators_view(m0.functions@[j].code@)));
        }
    }
    assert(v1.bodies =~= v0.bodies + empties);
    assert forall|j: int| 0 <= j < v1.func_names.len() implies #[trigger] v1.func_names[j] == (v0.func_names + nones)[j] by {
        if j >= n0 {
            assert(v1.func_types[j] == (v0.func_types + ids)[j]);
        }
    }
    assert(v1.func_names =~= v0.func_names + nones);
    assert(v1 == spec_step(v0, 3, p)->Ok_0);
}

proof fn lemma_code_step(m0: ModuleInfo, m1: ModuleInfo, p: Seq<u8>)
    requires
        m1.types == m0.types,
        m1.func_imports == m0.func_imports,
        m1.other_imports == m0.other_imports,
        m1.start_func == m0.start_func,
        m1.tables == m0.tables,
        m1.memories == m0.memories,
        m1.functions@.len() == m0.functions@.len(),
        forall|i: int| 0 <= i < m1.functions@.len() ==> (#[trigger] m1.functions@[i]).type_id == m0.functions@[i].type_id
            && m1.functions@[i].name == m0.functions@[i].name,
        spec_code_section(p, m0.functions@.len()) matches Ok(bodies) && bodies_view(m1, bodies.len()) == bodies,
    ensures
        spec_step(module_view(m0), 10, p) == Ok::<ModuleView, DecodeError>(module_view(m1)),
{
    let v0 = module_view(m0);
    let v1 = module_view(m1);
    let (n, q) = spec_u32(p, 0)->Ok_0;
    lemma_bodies_len(p, q, n);
    assert(v1.func_types =~= v0.func_types);
    assert(v1.func_names =~= v0.func_names);
    assert(v1 == spec_step(v0, 10, p)->Ok_0);
}

proof fn lemma_custom_step(m0: ModuleInfo, m1: ModuleInfo, p: Seq<u8>)
    requires
        same_but_names(m0, m1),
        match spec_name(p, 0) {
            Ok((section_name, q)) => if section_name == seq![0x6eu8, 0x61u8, 0x6du8, 0x65u8] {
                match spec_name_subsections(p, q, fn_names(m0)) {
                    Ok(names) => fn_names(m1) == names,
                    Err(e) => false,
                }
            } else {
                m1 == m0
            },
            Err(e) => false,
        },
    ensures
        spec_step(module_view(m0), 0, p) == Ok::<ModuleView, DecodeError>(module_view(m1)),
{
    let v0 = module_view(m0);
    let v1 = module_view(m1);
    let ni = m0.func_imports@.len() as int;
    assert(fn_names(m0) =~= v0.import_names + v0.func_names);
    assert(fn_names(m1) =~= v1.import_names + v1.func_names);
    assert(v1.types =~= v0.types);
    assert(v1.func_imports =~= v0.func_imports);
    assert(v1.other_imports =~= v0.other_imports);
    assert(v1.func_types =~= v0.func_types);
    assert(v1.bodies =~= v0.bodies);
    let (section_name, q) = spec_name(p, 0)->Ok_0;
    if section_name == seq![0x6eu8, 0x61u8, 0x6du8, 0x65u8] {
        assert(fn_names(m1).take(ni) =~= v1.import_names);
        assert(fn_names(m1).skip(ni) =~= v1.func_names);
    }
}

/// Reads one section, given its id and exactly its payload, into `m`.
/// Global, export, element and data sections are checked in full but not
/// kept; custom sections other than the name section, and unknown ids, are
/// skipped.
pub fn decode_section(id: u8, payload: &[u8], m: &mut ModuleInfo) -> (r: Result<(), DecodeError>)
    requires
        old(m).wf(),
    ensures
        final(m).wf(),
        match spec_step(module_view(*old(m)), id, payload@) {
            Ok(v) => r is Ok && module_view(*final(m)) == v,
            Err(e) => r == Err::<(), DecodeError>(e),
        },
{
    let ghost m0 = *m;
    proof {
        assert(fn_names(m0) =~= module_view(m0).import_names + module_view(m0).func_names);
    }
    if id == 0 {
        decode_custom_section(payload, m)?;
        proof {
            lemma_custom_step(m0, *m, payload@);
        }
    } else if id == 1 {
        decode_type_section(payload, m)?;
        proof {
            lemma_type_step(m0, *m, payload@);
        }
    } else if id == 2 {
        decode_import_section(payload, m)?;
        proof {
            lemma_import_step(m0, *m, payload@);
        }
    } else if id == 3 {
        decode_function_section(payload, m)?;
        proof {
            lemma_function_step(m0, *m, payload@);
        }
    } else if id == 4 {
        decode_table_section(payload, m)?;
        proof {
            assert(module_view(*m) == spec_step(module_view(m0), id, payload@)->Ok_0);
        }
    } else if id == 5 {
        decode_memory_section(payload, m)?;
        proof {
            assert(module_view(*m) == spec_step(module_view(m0), id, payload@)->Ok_0);
        }
    } else if id == 8 {
        decode_start_section(payload, m)?;
        proof {
            assert(module_view(*m) == spec_step(module_view(m0), id, payload@)->Ok_0);
        }
    } else if id == 10 {
        decode_code_section(payload, m)?;
        proof {
            lemma_code_step(m0, *m, payload@);
        }
    } else if id == 6 || id == 7 || id == 9 || id == 11 {
        check_section(id, payload)?;
    }
    Ok(())
}

/// Decodes a whole module: the header, then every section in order. Known
/// sections (ids 1 to 11) must come in ascending order; custom sections may
/// stand anywhere, and unknown ids are skipped. Every section's payload must
/// be used up exactly. The module is handed out only when the input has been
/// read to its end without an error.
pub fn decode_module(bytes: &[u8]) -> (r: Result<ModuleInfo, DecodeError>)
    ensures
        !has_magic(bytes@) ==> r == Err::<ModuleInfo, DecodeError>(DecodeError::InvalidMagic),
        has_magic(bytes@) && bytes@.len() < 8 ==> r == Err::<ModuleInfo, DecodeError>(DecodeError::UnexpectedEof),
        has_magic(bytes@) && bytes@.len() >= 8 && !has_version(bytes@) ==> r == Err::<ModuleInfo, DecodeError>(
            DecodeError::UnsupportedVersion,
        ),
        has_magic(bytes@) && has_version(bytes@) && bytes@.len() == 8 ==> (r matches Ok(m) && m.is_empty()),
        has_magic(bytes@) && has_version(bytes@) && bytes@.len() > 8 ==> (spec_section_header(bytes@, 8) matches Err(
            e,
        ) ==> r == Err::<ModuleInfo, DecodeError>(e)),
        section_walk(bytes@, 8) is Err ==> r is Err,
        r matches Ok(m) ==> m.wf(),
        match spec_decode(bytes@) {
            Ok(v) => r matches Ok(m) && module_view(m) == v,
            Err(e) => r == Err::<ModuleInfo, DecodeError>(e),
        },
{
    if bytes.len() < 4 || bytes[0] != 0x00 || bytes[1] != 0x61 || bytes[2] != 0x73 || bytes[3] != 0x6d {
        return Err(DecodeError::InvalidMagic);
    }
    if bytes.len() < 8 {
        return Err(DecodeError::UnexpectedEof);
    }
    if bytes[4] != 1 || bytes[5] != 0 || bytes[6] != 0 || bytes[7] != 0 {
        return Err(DecodeError::UnsupportedVersion);
    }
    let mut m = ModuleInfo::new();
    let mut pos: usize = 8;
    let mut last_id: u8 = 0;
    let mut has_code = false;
    proof {
        let v = module_view(m);
        assert(v.types =~= empty_view().types);
        assert(v.func_imports =~= empty_view().func_imports);
        assert(v.import_names =~= empty_view().import_names);
        assert(v.other_imports =~= empty_view().other_imports);
        assert(v.func_types =~= empty_view().func_types);
        assert(v.bodies =~= empty_view().bodies);
        assert(v.func_names =~= empty_view().func_names);
        assert(v.tables =~= empty_view().tables);
        assert(v.memories =~= empty_view().memories);
        assert(v == empty_view());
    }
    while pos < bytes.len()
        invariant
            m.wf(),
            8 <= pos <= bytes.len(),
            pos == 8 ==> m.is_empty() && last_id == 0,
            pos > 8 ==> spec_section_header(bytes@, 8) is Ok,
            has_magic(bytes@),
            has_version(bytes@),
            section_walk(bytes@, 8) == section_walk(bytes@, pos as int),
            spec_decode(bytes@) == spec_sections(bytes@, pos as int, module_view(m), last_id, has_code),
        decreases bytes.len() - pos,
    {
        let (id, start, end) = read_section_header(bytes, pos)?;
        if 1 <= id && id <= 11 {
            if id <= last_id {
                return Err(DecodeError::SectionOutOfOrder);
            }
        }
        let payload = &bytes[start..end];
        decode_section(id, payload, &mut m)?;
        if id == 10 {
            has_code = true;
        }
        if 1 <= id && id <= 11 {
            last_id = id;
        }
        pos = end;
    }
    if !has_code && m.functions.len() > 0 {
        return Err(DecodeError::FunctionCountMismatch);
    }
    Ok(m)
}

/// Checks that `bytes` is a well-formed module, without handing out what
/// was decoded.
pub fn validate(bytes: &[u8]) -> (r: bool)
    ensures
        r == spec_decode(bytes@) is Ok,
{
    match decode_module(bytes) {
        Ok(_) => true,
        Err(_) => false,
    }
}

} // verus!
