use vstd::prelude::*;
use crate::checked::spec_checked_section;
use crate::code::{OperatorView, operators_view};
use crate::decode::{
    bodies_view, func_import_view, function_imports, has_magic, has_version, other_import_view, other_imports,
    spec_code_section, spec_function_section, spec_import_section, spec_memory_section, spec_section_header,
    spec_start_section, spec_table_section, spec_type_section,
};
use crate::error::DecodeError;
use crate::model::{ImportDesc, LocalInfo, MemoryInfo, ModuleInfo, TableInfo, ValueType};
use crate::names::{name_view, spec_name_subsections};
use crate::reader::spec_name;

verus! {

/// Everything a decoded module holds, as mathematical values. Names are
/// kept apart from what they name, in the two halves of the function index
/// space.
pub struct ModuleView {
    pub types: Seq<(Seq<ValueType>, Seq<ValueType>)>,
    pub func_imports: Seq<(Seq<u8>, Seq<u8>, u32)>,
    pub import_names: Seq<Option<Seq<u8>>>,
    pub other_imports: Seq<(Seq<u8>, Seq<u8>, ImportDesc)>,
    pub func_types: Seq<u32>,
    pub bodies: Seq<(Seq<LocalInfo>, Seq<OperatorView>)>,
    pub func_names: Seq<Option<Seq<u8>>>,
    pub tables: Seq<TableInfo>,
    pub memories: Seq<MemoryInfo>,
    pub start: Option<u32>,
}

/// The mathematical value of a module.
pub open spec fn module_view(m: ModuleInfo) -> ModuleView {
    ModuleView {
        types: Seq::new(m.types@.len(), |i: int| (m.types@[i].params@, m.types@[i].results@)),
        func_imports: func_import_view(m),
        import_names: Seq::new(m.func_imports@.len(), |i: int| name_view(m.func_imports@[i].name)),
        other_imports: other_import_view(m),
        func_types: Seq::new(m.functions@.len(), |i: int| m.functions@[i].type_id),
        bodies: bodies_view(m, m.functions@.len()),
        func_names: Seq::new(m.functions@.len(), |i: int| name_view(m.functions@[i].name)),
        tables: m.tables@,
        memories: m.memories@,
        start: m.start_func,
    }
}

/// A module with no declarations.
pub open spec fn empty_view() -> ModuleView {
    ModuleView {
        types: Seq::empty(),
        func_imports: Seq::empty(),
        import_names: Seq::empty(),
        other_imports: Seq::empty(),
        func_types: Seq::empty(),
        bodies: Seq::empty(),
        func_names: Seq::empty(),
        tables: Seq::empty(),
        memories: Seq::empty(),
        start: None,
    }
}

/// What reading the section with id `id` and payload `p` does to `v`.
/// Global, export, element and data sections are checked and leave `v` as
/// it is; so do custom sections other than `name`, and unknown ids.
pub open spec fn spec_step(v: ModuleView, id: u8, p: Seq<u8>) -> Result<ModuleView, DecodeError> {
    if id == 0 {
        match spec_name(p, 0) {
            Ok((section_name, q)) => if section_name == seq![0x6eu8, 0x61u8, 0x6du8, 0x65u8] {
                match spec_name_subsections(p, q, v.import_names + v.func_names) {
                    Ok(names) => Ok(
                        ModuleView {
                            import_names: names.take(v.import_names.len() as int),
                            func_names: names.skip(v.import_names.len() as int),
                            ..v
                        },
                    ),
                    Err(e) => Err(e),
                }
            } else {
                Ok(v)
            },
            Err(e) => Err(e),
        }
    } else if id == 1 {
        match spec_type_section(p) {
            Ok(ts) => Ok(ModuleView { types: v.types + ts, ..v }),
            Err(e) => Err(e),
        }
    } else if id == 2 {
        match spec_import_section(p, v.types.len()) {
            Ok(es) => Ok(
                ModuleView {
                    func_imports: v.func_imports + function_imports(es),
                    import_names: v.import_names + Seq::new(function_imports(es).len(), |i: int| None::<Seq<u8>>),
                    other_imports: v.other_imports + other_imports(es),
                    ..v
                },
            ),
            Err(e) => Err(e),
        }
    } else if id == 3 {
        match spec_function_section(p, v.types.len()) {
            Ok(ids) => Ok(
                ModuleView {
                    func_types: v.func_types + ids,
                    bodies: v.bodies + Seq::new(ids.len(), |i: int| (Seq::<LocalInfo>::empty(), Seq::<OperatorView>::empty())),
                    func_names: v.func_names + Seq::new(ids.len(), |i: int| None::<Seq<u8>>),
                    ..v
                },
            ),
            Err(e) => Err(e),
        }
    } else if id == 4 {
        match spec_table_section(p) {
            Ok(ts) => Ok(ModuleView { tables: v.tables + ts, ..v }),
            Err(e) => Err(e),
        }
    } else if id == 5 {
        match spec_memory_section(p) {
            Ok(ms) => Ok(ModuleView { memories: v.memories + ms, ..v }),
            Err(e) => Err(e),
        }
    } else if id == 8 {
        match spec_start_section(p, v.func_imports.len() + v.func_types.len()) {
            Ok(index) => Ok(ModuleView { start: Some(index), ..v }),
            Err(e) => Err(e),
        }
    } else if id == 10 {
        match spec_code_section(p, v.func_types.len()) {
            Ok(bs) => Ok(ModuleView { bodies: bs, ..v }),
            Err(e) => Err(e),
        }
    } else if id == 6 || id == 7 || id == 9 || id == 11 {
        match spec_checked_section(id, p) {
            Ok(_) => Ok(v),
            Err(e) => Err(e),
        }
    } else {
        Ok(v)
    }
}

/// The sections from `pos` to the end of the input, read into `v`. Known
/// sections (ids 1 to 11) must come after `last_id`; `has_code` tells
/// whether the code section has been read, which it must have been when
/// local functions were declared.
pub open spec fn spec_sections(s: Seq<u8>, pos: int, v: ModuleView, last_id: u8, has_code: bool) -> Result<ModuleView, DecodeError>
    decreases s.len() - pos,
{
    if pos < 0 || pos >= s.len() {
        if !has_code && v.func_types.len() > 0 {
            Err(DecodeError::FunctionCountMismatch)
        } else {
            Ok(v)
        }
    } else {
        match spec_section_header(s, pos) {
            Ok((id, start, end)) => if end <= pos || start > end || end > s.len() {
                Ok(v)
            } else if 1 <= id <= 11 && id <= last_id {
                Err(DecodeError::SectionOutOfOrder)
            } else {
                match spec_step(v, id, s.subrange(start, end)) {
                    Ok(v2) => spec_sections(s, end, v2, if 1 <= id <= 11 { id } else { last_id }, has_code || id == 10),
                    Err(e) => Err(e),
                }
            },
            Err(e) => Err(e),
        }
    }
}

/// A whole module: the magic, the version, then its sections.
pub open spec fn spec_decode(s: Seq<u8>) -> Result<ModuleView, DecodeError> {
    if !has_magic(s) {
        Err(DecodeError::InvalidMagic)
    } else if s.len() < 8 {
        Err(DecodeError::UnexpectedEof)
    } else if !has_version(s) {
        Err(DecodeError::UnsupportedVersion)
    } else {
        spec_sections(s, 8, empty_view(), 0, false)
    }
}

} // verus!
