use wasm_modinfo::decode::{decode_module, read_section_header, validate};
use wasm_modinfo::entities::read_func_type;
use wasm_modinfo::error::DecodeError;
use wasm_modinfo::code::{read_body, read_operator};
use wasm_modinfo::model::{
    FuncImportInfo, FuncInfo, ImportDesc, Limits, LocalInfo, MemoryInfo, ModuleInfo, Operator, TableInfo, ValueType,
};
use wasm_modinfo::names::apply_function_name;
use wasm_modinfo::reader::{read_s32, read_s64, read_u32};
use wasm_modinfo::utf8::is_valid_utf8;

fn header() -> Vec<u8> {
    vec![0x00, 0x61, 0x73, 0x6d, 0x01, 0x00, 0x00, 0x00]
}

fn section(id: u8, payload: &[u8]) -> Vec<u8> {
    assert!(payload.len() < 128);
    let mut out = vec![id, payload.len() as u8];
    out.extend_from_slice(payload);
    out
}

fn module(sections: &[Vec<u8>]) -> Vec<u8> {
    let mut out = header();
    for s in sections {
        out.extend_from_slice(s);
    }
    out
}

fn sample_module() -> Vec<u8> {
    let types = section(1, &[0x01, 0x60, 0x02, 0x7f, 0x7f, 0x01, 0x7f]);
    let imports = section(2, &[0x01, 0x03, b'e', b'n', b'v', 0x03, b's', b'u', b'm', 0x00, 0x00]);
    let funcs = section(3, &[0x01, 0x00]);
    let code = section(10, &[0x01, 0x04, 0x01, 0x01, 0x7f, 0x0b]);
    let names = section(
        0,
        &[
            0x04, b'n', b'a', b'm', b'e', 0x01, 0x0c, 0x02, 0x00, 0x03, b's', b'u', b'm', 0x01, 0x04, b'a', b'd',
            b'd', b'1',
        ],
    );
    module(&[types, imports, funcs, code, names])
}

#[test]
fn header_only_module_is_empty() {
    let m = decode_module(&header()).unwrap();
    assert!(m.types.is_empty());
    assert!(m.func_imports.is_empty());
    assert!(m.functions.is_empty());
    assert!(m.tables.is_empty());
    assert!(m.memories.is_empty());
    assert!(m.start_func.is_none());
    assert!(validate(&header()));
}

#[test]
fn sample_module_decodes() {
    let m = decode_module(&sample_module()).unwrap();
    assert_eq!(m.types.len(), 1);
    assert_eq!(m.types[0].params, vec![ValueType::I32, ValueType::I32]);
    assert_eq!(m.types[0].results, vec![ValueType::I32]);
    assert_eq!(m.func_imports.len(), 1);
    assert_eq!(m.func_imports[0].module, b"env".to_vec());
    assert_eq!(m.func_imports[0].field, b"sum".to_vec());
    assert_eq!(m.func_imports[0].type_id, 0);
    assert_eq!(m.func_imports[0].name, Some(b"sum".to_vec()));
    assert_eq!(m.functions.len(), 1);
    assert_eq!(m.functions[0].type_id, 0);
    assert_eq!(m.functions[0].locals.len(), 1);
    assert_eq!(m.functions[0].locals[0].count, 1);
    assert_eq!(m.functions[0].locals[0].ty, ValueType::I32);
    assert_eq!(m.functions[0].name, Some(b"add1".to_vec()));
    assert_eq!(m.functions[0].code.len(), 1);
    assert!(matches!(m.functions[0].code[0], Operator::Simple { opcode: 0x0b }));
}

#[test]
fn value_type_table() {
    let bytes = [0x60, 0x04, 0x7f, 0x7e, 0x7d, 0x7c, 0x01, 0x7c];
    let (ft, end) = read_func_type(&bytes, 0).unwrap();
    assert_eq!(end, bytes.len());
    assert_eq!(ft.params, vec![ValueType::I32, ValueType::I64, ValueType::F32, ValueType::F64]);
    assert_eq!(ft.results, vec![ValueType::F64]);
    assert_eq!(read_func_type(&[0x60, 0x01, 0x7b, 0x00], 0).err(), Some(DecodeError::InvalidForm));
}

fn two_function_module() -> ModuleInfo {
    let mut m = ModuleInfo::new();
    m.func_imports.push(FuncImportInfo { module: b"m".to_vec(), field: b"a".to_vec(), type_id: 0, name: None });
    m.functions.push(FuncInfo { type_id: 0, locals: Vec::new(), code: Vec::new(), name: None });
    m
}

#[test]
fn name_index_space() {
    let mut m = two_function_module();
    assert_eq!(apply_function_name(&mut m, 0, b"A".to_vec()), Ok(()));
    assert_eq!(m.func_imports[0].name, Some(b"A".to_vec()));
    assert_eq!(m.functions[0].name, None);
    assert_eq!(apply_function_name(&mut m, 1, b"B".to_vec()), Ok(()));
    assert_eq!(m.functions[0].name, Some(b"B".to_vec()));
    assert_eq!(apply_function_name(&mut m, 2, b"C".to_vec()), Err(DecodeError::InvalidNameIndex));
    assert_eq!(m.func_imports[0].name, Some(b"A".to_vec()));
    assert_eq!(m.functions[0].name, Some(b"B".to_vec()));
}

#[test]
fn name_section_index_out_of_range() {
    let types = section(1, &[0x01, 0x60, 0x00, 0x00]);
    let funcs = section(3, &[0x01, 0x00]);
    let code = section(10, &[0x01, 0x02, 0x00, 0x0b]);
    let names = section(0, &[0x04, b'n', b'a', b'm', b'e', 0x01, 0x04, 0x01, 0x01, 0x01, b'x']);
    assert_eq!(decode_module(&module(&[types, funcs, code, names])).err(), Some(DecodeError::InvalidNameIndex));
}

#[test]
fn truncated_payload_is_refused() {
    let full = sample_module();
    let cut = &full[..full.len() - 1];
    assert_eq!(decode_module(cut).err(), Some(DecodeError::UnexpectedEof));
    let one = module(&[section(1, &[0x01, 0x60, 0x00, 0x00])]);
    assert_eq!(decode_module(&one[..one.len() - 1]).err(), Some(DecodeError::UnexpectedEof));
    assert_eq!(read_section_header(&one[..one.len() - 1], 8).err(), Some(DecodeError::UnexpectedEof));
}

#[test]
fn slack_in_payload_is_refused() {
    let types = section(1, &[0x01, 0x60, 0x00, 0x00, 0x00]);
    assert_eq!(decode_module(&module(&[types])).err(), Some(DecodeError::TruncatedSection));
    let short = section(1, &[0x02, 0x60, 0x00, 0x00]);
    assert_eq!(decode_module(&module(&[short])).err(), Some(DecodeError::UnexpectedEof));
}

#[test]
fn zero_header_is_invalid_magic() {
    assert_eq!(decode_module(&[0u8; 8]).err(), Some(DecodeError::InvalidMagic));
    assert!(!validate(&[0u8; 8]));
    assert_eq!(decode_module(&[]).err(), Some(DecodeError::InvalidMagic));
}

#[test]
fn header_errors() {
    assert_eq!(
        decode_module(&[0x00, 0x61, 0x73, 0x6d, 0x02, 0x00, 0x00, 0x00]).err(),
        Some(DecodeError::UnsupportedVersion)
    );
    assert_eq!(decode_module(&[0x00, 0x61, 0x73, 0x6d, 0x01]).err(), Some(DecodeError::UnexpectedEof));
}

#[test]
fn entity_errors() {
    let bad_form = section(1, &[0x01, 0x61, 0x00, 0x00]);
    assert_eq!(decode_module(&module(&[bad_form])).err(), Some(DecodeError::InvalidForm));
    let two_results = section(1, &[0x01, 0x60, 0x00, 0x02, 0x7f, 0x7f]);
    assert_eq!(decode_module(&module(&[two_results])).err(), Some(DecodeError::UnsupportedFeature));
    let funcs = section(3, &[0x01, 0x00]);
    assert_eq!(decode_module(&module(&[funcs])).err(), Some(DecodeError::InvalidIndex));
    let types = section(1, &[0x01, 0x60, 0x00, 0x00]);
    let funcs = section(3, &[0x01, 0x00]);
    assert_eq!(decode_module(&module(&[section(4, &[0x00]), types.clone()])).err(), Some(DecodeError::SectionOutOfOrder));
    assert_eq!(decode_module(&module(&[types.clone(), funcs.clone()])).err(), Some(DecodeError::FunctionCountMismatch));
    let code = section(10, &[0x01, 0x02, 0x00, 0xfc]);
    assert_eq!(
        decode_module(&module(&[types, funcs, code])).err(),
        Some(DecodeError::UnknownOpcodeImmediateShape)
    );
}

#[test]
fn tables_memories_and_start() {
    let types = section(1, &[0x01, 0x60, 0x00, 0x00]);
    let funcs = section(3, &[0x01, 0x00]);
    let tables = section(4, &[0x01, 0x70, 0x01, 0x02, 0x0a]);
    let mems = section(5, &[0x01, 0x00, 0x11]);
    let start = section(8, &[0x00]);
    let body = section(10, &[0x01, 0x08, 0x00, 0x41, 0x7f, 0x1a, 0x02, 0x40, 0x0b, 0x0b]);
    let m = decode_module(&module(&[types, funcs, tables, mems, start, body])).unwrap();
    assert_eq!(m.tables[0].limits.initial, 2);
    assert_eq!(m.tables[0].limits.maximum, Some(10));
    assert_eq!(m.memories[0].limits.initial, 17);
    assert_eq!(m.memories[0].limits.maximum, None);
    assert_eq!(m.start_func, Some(0));
    let code = &m.functions[0].code;
    assert_eq!(code.len(), 5);
    assert!(matches!(code[0], Operator::I32Const(-1)));
    assert!(matches!(code[1], Operator::Simple { opcode: 0x1a }));
    assert!(matches!(code[2], Operator::Block { opcode: 0x02, block_type: 0x40 }));
}

#[test]
fn varints() {
    assert_eq!(read_u32(&[0xe5, 0x8e, 0x26], 0), Ok((624485, 3)));
    assert_eq!(read_u32(&[0xff, 0xff, 0xff, 0xff, 0x0f], 0), Ok((u32::MAX, 5)));
    assert_eq!(read_u32(&[0xff, 0xff, 0xff, 0xff, 0x1f], 0), Err(DecodeError::Overflow));
    assert_eq!(read_u32(&[0x80, 0x80, 0x80, 0x80, 0x80, 0x00], 0), Err(DecodeError::MalformedVarint));
    assert_eq!(read_u32(&[0x80], 0), Err(DecodeError::UnexpectedEof));
    assert_eq!(read_s32(&[0x7f], 0), Ok((-1, 1)));
    assert_eq!(read_s32(&[0x80, 0x80, 0x80, 0x80, 0x78], 0), Ok((i32::MIN, 5)));
    assert_eq!(read_s32(&[0x80, 0x80, 0x80, 0x80, 0x70], 0), Err(DecodeError::Overflow));
    assert_eq!(read_s64(&[0xc0, 0xbb, 0x78], 0), Ok((-123456, 3)));
}

#[test]
fn other_import_kinds_are_kept() {
    let imports = section(
        2,
        &[
            0x03, 0x01, b'm', 0x01, b't', 0x01, 0x70, 0x00, 0x01, 0x01, b'm', 0x01, b'y', 0x02, 0x01, 0x01, 0x02, 0x01,
            b'm', 0x01, b'g', 0x03, 0x7e, 0x01,
        ],
    );
    let m = decode_module(&module(&[imports])).unwrap();
    assert!(m.func_imports.is_empty());
    assert_eq!(m.other_imports.len(), 3);
    assert_eq!(m.other_imports[0].field, b"t".to_vec());
    assert_eq!(
        m.other_imports[0].desc,
        ImportDesc::Table(TableInfo { limits: Limits { initial: 1, maximum: None } })
    );
    assert_eq!(
        m.other_imports[1].desc,
        ImportDesc::Memory(MemoryInfo { limits: Limits { initial: 1, maximum: Some(2) } })
    );
    assert_eq!(m.other_imports[2].desc, ImportDesc::Global { ty: ValueType::I64, mutable: true });
    let bad_kind = section(2, &[0x01, 0x01, b'm', 0x01, b'x', 0x04, 0x00]);
    assert_eq!(decode_module(&module(&[bad_kind])).err(), Some(DecodeError::InvalidForm));
}

#[test]
fn operators_with_immediates() {
    let body = [
        0x0e, 0x02, 0x00, 0x01, 0x02, 0x11, 0x05, 0x00, 0x28, 0x02, 0x10, 0x42, 0x7f, 0x43, 0x00, 0x00, 0x80, 0x3f,
        0x20, 0x03, 0x3f, 0x00,
    ];
    let (o, p) = read_operator(&body, 0).unwrap();
    match o {
        Operator::BrTable { targets, default } => {
            assert_eq!(targets, vec![0, 1]);
            assert_eq!(default, 2);
        }
        _ => panic!("expected br_table"),
    }
    let (o, p) = read_operator(&body, p).unwrap();
    assert!(matches!(o, Operator::CallIndirect { type_index: 5 }));
    let (o, p) = read_operator(&body, p).unwrap();
    assert!(matches!(o, Operator::Memory { opcode: 0x28, align: 2, offset: 16 }));
    let (o, p) = read_operator(&body, p).unwrap();
    assert!(matches!(o, Operator::I64Const(-1)));
    let (o, p) = read_operator(&body, p).unwrap();
    match o {
        Operator::Opaque { opcode, immediate } => {
            assert_eq!(opcode, 0x43);
            assert_eq!(immediate, vec![0x00, 0x00, 0x80, 0x3f]);
        }
        _ => panic!("expected f32.const"),
    }
    let (o, p) = read_operator(&body, p).unwrap();
    assert!(matches!(o, Operator::Index { opcode: 0x20, index: 3 }));
    let (o, p) = read_operator(&body, p).unwrap();
    assert!(matches!(o, Operator::Opaque { opcode: 0x3f, .. }));
    assert_eq!(p, body.len());
    assert_eq!(read_operator(&[0x02, 0x00], 0).err(), Some(DecodeError::InvalidForm));
    assert_eq!(read_operator(&[0xfd], 0).err(), Some(DecodeError::UnknownOpcodeImmediateShape));
}

#[test]
fn body_must_end_exactly() {
    assert_eq!(read_body(&[0x00, 0x0b, 0x01]).err(), Some(DecodeError::TruncatedSection));
    assert_eq!(read_body(&[0x00, 0x02, 0x40, 0x0b]).err(), Some(DecodeError::UnexpectedEof));
    let (locals, code) = read_body(&[0x02, 0x02, 0x7f, 0x01, 0x7c, 0x02, 0x40, 0x0b, 0x0b]).unwrap();
    assert_eq!(locals, vec![LocalInfo { count: 2, ty: ValueType::I32 }, LocalInfo { count: 1, ty: ValueType::F64 }]);
    assert_eq!(code.len(), 3);
}

#[test]
fn names_must_be_utf8() {
    assert!(is_valid_utf8(&vec![b'a', 0xc3, 0xa9, 0xe2, 0x82, 0xac, 0xf0, 0x9f, 0x98, 0x80]));
    assert!(!is_valid_utf8(&vec![0xc0, 0x80]));
    assert!(!is_valid_utf8(&vec![0xed, 0xa0, 0x80]));
    assert!(!is_valid_utf8(&vec![0xf4, 0x90, 0x80, 0x80]));
    assert!(!is_valid_utf8(&vec![0xe2, 0x82]));
    let imports = section(2, &[0x01, 0x01, 0xff, 0x01, b'f', 0x00, 0x00]);
    let types = section(1, &[0x01, 0x60, 0x00, 0x00]);
    assert_eq!(decode_module(&module(&[types, imports])).err(), Some(DecodeError::InvalidForm));
}

#[test]
fn unkept_sections_are_checked() {
    assert_eq!(decode_module(&module(&[section(7, &[0x00, 0xff])])).err(), Some(DecodeError::TruncatedSection));
    assert_eq!(
        decode_module(&module(&[section(7, &[0x80, 0x80, 0x80, 0x80, 0x80, 0x00])])).err(),
        Some(DecodeError::MalformedVarint)
    );
    assert!(!validate(&module(&[section(7, &[0x00, 0xff])])));
    let types = section(1, &[0x01, 0x60, 0x00, 0x00]);
    let funcs = section(3, &[0x01, 0x00]);
    let tables = section(4, &[0x01, 0x70, 0x00, 0x01]);
    let mems = section(5, &[0x01, 0x00, 0x01]);
    let globals = section(6, &[0x01, 0x7f, 0x00, 0x41, 0x2a, 0x0b]);
    let exports = section(7, &[0x02, 0x01, b'f', 0x00, 0x00, 0x01, b'm', 0x02, 0x00]);
    let elems = section(9, &[0x01, 0x00, 0x41, 0x00, 0x0b, 0x01, 0x00]);
    let code = section(10, &[0x01, 0x02, 0x00, 0x0b]);
    let data = section(11, &[0x01, 0x00, 0x41, 0x08, 0x0b, 0x02, b'h', b'i']);
    let m = decode_module(&module(&[types, funcs, tables, mems, globals, exports, elems, code, data])).unwrap();
    assert_eq!(m.functions.len(), 1);
    let bad_export = section(7, &[0x01, 0x01, b'f', 0x04, 0x00]);
    assert_eq!(decode_module(&module(&[bad_export])).err(), Some(DecodeError::InvalidForm));
    let short_data = section(11, &[0x01, 0x00, 0x41, 0x08, 0x0b, 0x03, b'h', b'i']);
    assert_eq!(decode_module(&module(&[short_data])).err(), Some(DecodeError::UnexpectedEof));
}

#[test]
fn limits_maximum_not_below_initial() {
    let mems = section(5, &[0x01, 0x01, 0x02, 0x01]);
    assert_eq!(decode_module(&module(&[mems])).err(), Some(DecodeError::InvalidForm));
}
