use vstd::prelude::*;
use crate::code::{operator_view, operators_view};
use crate::names::name_view;
use crate::view::module_view;
use crate::model::{
    FuncImportInfo, FuncInfo, FuncType, ImportDesc, Limits, LocalInfo, MemoryInfo, ModuleInfo, Operator,
    OtherImport, TableInfo, ValueType,
};

verus! {

/// Version of the wire format.
pub const WIRE_VERSION: u8 = 1;

/// Unsigned LEB128 encoding of `v`.
pub open spec fn uleb(v: nat) -> Seq<u8>
    decreases v,
{
    if v < 128 {
        seq![v as u8]
    } else {
        seq![(v % 128 + 128) as u8] + uleb(v / 128)
    }
}

/// A tagged field: the tag, the payload's length, the payload. A reader
/// skips a tag it does not know by its length.
pub open spec fn field(tag: u8, payload: Seq<u8>) -> Seq<u8> {
    seq![tag] + uleb(payload.len()) + payload
}

/// The encodings of the items of `s`, one after the other.
pub open spec fn concat<T>(s: Seq<T>, f: spec_fn(T) -> Seq<u8>) -> Seq<u8>
    decreases s.len(),
{
    if s.len() == 0 {
        Seq::empty()
    } else {
        concat(s.drop_last(), f) + f(s.last())
    }
}

/// A field that is present only when the value is.
pub open spec fn opt_field(tag: u8, v: Option<Seq<u8>>) -> Seq<u8> {
    match v {
        Some(p) => field(tag, p),
        None => Seq::empty(),
    }
}

/// The byte that stands for each value type, as in the module format.
pub open spec fn value_type_byte(t: ValueType) -> u8 {
    match t {
        ValueType::I32 => 0x7f,
        ValueType::I64 => 0x7e,
        ValueType::F32 => 0x7d,
        ValueType::F64 => 0x7c,
    }
}

/// Value types, one byte each.
pub open spec fn enc_value_types(s: Seq<ValueType>) -> Seq<u8> {
    concat(s, |t: ValueType| seq![value_type_byte(t)])
}

/// A function type: its parameter types (tag 1) and result types (tag 2).
pub open spec fn enc_func_type(ft: FuncType) -> Seq<u8> {
    field(1, enc_value_types(ft.params@)) + field(2, enc_value_types(ft.results@))
}

/// A function import: module (1), field (2), type index (3) and, when it
/// has one, its name (4).
pub open spec fn enc_func_import(f: FuncImportInfo) -> Seq<u8> {
    field(1, f.module@) + field(2, f.field@) + field(3, uleb(f.type_id as nat)) + opt_field(4, name_view(f.name))
}

/// Limits: the initial size (1) and, when there is one, the maximum (2).
pub open spec fn enc_limits(l: Limits) -> Seq<u8> {
    field(1, uleb(l.initial as nat)) + opt_field(
        2,
        match l.maximum {
            Some(x) => Some(uleb(x as nat)),
            None => None,
        },
    )
}

/// Another import: module (1), field (2), then a table's limits (3), a
/// memory's limits (4) or a global's value type and mutability (5).
pub open spec fn enc_other_import(o: OtherImport) -> Seq<u8> {
    field(1, o.module@) + field(2, o.field@) + match o.desc {
        ImportDesc::Table(t) => field(3, enc_limits(t.limits)),
        ImportDesc::Memory(mem) => field(4, enc_limits(mem.limits)),
        ImportDesc::Global { ty, mutable } => field(5, seq![value_type_byte(ty), if mutable { 1u8 } else { 0u8 }]),
    }
}

/// A run of locals: the count, then the value type byte.
pub open spec fn enc_local(l: LocalInfo) -> Seq<u8> {
    uleb(l.count as nat) + seq![value_type_byte(l.ty)]
}

/// Integers as varints, one after the other.
pub open spec fn enc_u32s(s: Seq<u32>) -> Seq<u8> {
    concat(s, |x: u32| uleb(x as nat))
}

/// An instruction: its opcode, then its immediates. Signed constants are
/// written as the unsigned varint of their two's complement bits.
pub open spec fn enc_operator(o: Operator) -> Seq<u8> {
    match o {
        Operator::Simple { opcode } => seq![opcode],
        Operator::Block { opcode, block_type } => seq![opcode, block_type],
        Operator::Index { opcode, index } => seq![opcode] + uleb(index as nat),
        Operator::BrTable { targets, default } => seq![0x0eu8] + uleb(targets@.len()) + enc_u32s(targets@) + uleb(
            default as nat,
        ),
        Operator::CallIndirect { type_index } => seq![0x11u8] + uleb(type_index as nat),
        Operator::Memory { opcode, align, offset } => seq![opcode] + uleb(align as nat) + uleb(offset as nat),
        Operator::I32Const(v) => seq![0x41u8] + uleb(v as u32 as nat),
        Operator::I64Const(v) => seq![0x42u8] + uleb(v as u64 as nat),
        Operator::Opaque { opcode, immediate } => seq![opcode] + immediate@,
    }
}

/// A local function: type index (1), one field per run of locals (2), one
/// per instruction (3) and, when it has one, its name (4).
pub open spec fn enc_func(f: FuncInfo) -> Seq<u8> {
    field(1, uleb(f.type_id as nat)) + concat(f.locals@, |l: LocalInfo| field(2, enc_local(l))) + concat(
        f.code@,
        |o: Operator| field(3, enc_operator(o)),
    ) + opt_field(4, name_view(f.name))
}

/// The whole encoding of a module: the bytes "MINF", the version, then one field per
/// declaration, grouped by kind in a fixed order.
pub open spec fn enc_module(m: ModuleInfo) -> Seq<u8> {
    seq![0x4du8, 0x49u8, 0x4eu8, 0x46u8, WIRE_VERSION]
        + concat(m.types@, |t: FuncType| field(1, enc_func_type(t)))
        + concat(m.func_imports@, |f: FuncImportInfo| field(2, enc_func_import(f)))
        + concat(m.other_imports@, |o: OtherImport| field(7, enc_other_import(o)))
        + concat(m.functions@, |f: FuncInfo| field(3, enc_func(f)))
        + concat(m.tables@, |t: TableInfo| field(4, enc_limits(t.limits)))
        + concat(m.memories@, |mem: MemoryInfo| field(5, enc_limits(mem.limits)))
        + opt_field(
            6,
            match m.start_func {
                Some(s) => Some(uleb(s as nat)),
                None => None,
            },
        )
}

proof fn lemma_concat_congruent<A, B>(s1: Seq<A>, f1: spec_fn(A) -> Seq<u8>, s2: Seq<B>, f2: spec_fn(B) -> Seq<u8>)
    requires
        s1.len() == s2.len(),
        forall|i: int| 0 <= i < s1.len() ==> f1(s1[i]) == f2(s2[i]),
    ensures
        concat(s1, f1) == concat(s2, f2),
    decreases s1.len(),
{
    if s1.len() > 0 {
        lemma_concat_congruent(s1.drop_last(), f1, s2.drop_last(), f2);
    }
}

proof fn lemma_operator_encoding(o1: Operator, o2: Operator)
    requires
        operator_view(o1) == operator_view(o2),
    ensures
        enc_operator(o1) == enc_operator(o2),
{
}

proof fn lemma_func_encoding(f1: FuncInfo, f2: FuncInfo)
    requires
        f1.type_id == f2.type_id,
        f1.locals@ == f2.locals@,
        operators_view(f1.code@) == operators_view(f2.code@),
        name_view(f1.name) == name_view(f2.name),
    ensures
        enc_func(f1) == enc_func(f2),
{
    let g = |o: Operator| field(3, enc_operator(o));
    assert(operators_view(f1.code@).len() == f1.code@.len());
    assert(operators_view(f2.code@).len() == f2.code@.len());
    assert forall|i: int| 0 <= i < f1.code@.len() implies g(f1.code@[i]) == g(f2.code@[i]) by {
        assert(operators_view(f1.code@)[i] == operators_view(f2.code@)[i]);
        assert(operators_view(f1.code@)[i] == operator_view(f1.code@[i]));
        assert(operators_view(f2.code@)[i] == operator_view(f2.code@[i]));
        lemma_operator_encoding(f1.code@[i], f2.code@[i]);
    }
    lemma_concat_congruent(f1.code@, g, f2.code@, g);
}

/// The encoding depends on what a module holds and nothing else: two
/// modules with the same value encode to identical bytes. Together with
/// the exact contracts of `decode_module` and `encode_module`, decoding
/// the same input twice gives byte-identical results.
pub proof fn lemma_encoding_deterministic(a: ModuleInfo, b: ModuleInfo)
    requires
        module_view(a) == module_view(b),
    ensures
        enc_module(a) == enc_module(b),
{
    let va = module_view(a);
    let vb = module_view(b);
    assert(va.types.len() == a.types@.len() && vb.types.len() == b.types@.len());
    assert(va.func_imports.len() == a.func_imports@.len() && vb.func_imports.len() == b.func_imports@.len());
    assert(va.other_imports.len() == a.other_imports@.len() && vb.other_imports.len() == b.other_imports@.len());
    assert(va.func_types.len() == a.functions@.len() && vb.func_types.len() == b.functions@.len());
    let ft = |t: FuncType| field(1, enc_func_type(t));
    assert forall|i: int| 0 <= i < a.types@.len() implies ft(a.types@[i]) == ft(b.types@[i]) by {
        assert(va.types[i] == vb.types[i]);
    }
    lemma_concat_congruent(a.types@, ft, b.types@, ft);
    let fi = |f: FuncImportInfo| field(2, enc_func_import(f));
    assert forall|i: int| 0 <= i < a.func_imports@.len() implies fi(a.func_imports@[i]) == fi(b.func_imports@[i]) by {
        assert(va.func_imports[i] == vb.func_imports[i]);
        assert(va.import_names[i] == vb.import_names[i]);
    }
    lemma_concat_congruent(a.func_imports@, fi, b.func_imports@, fi);
    let fo = |o: OtherImport| field(7, enc_other_import(o));
    assert forall|i: int| 0 <= i < a.other_imports@.len() implies fo(a.other_imports@[i]) == fo(b.other_imports@[i]) by {
        assert(va.other_imports[i] == vb.other_imports[i]);
    }
    lemma_concat_congruent(a.other_imports@, fo, b.other_imports@, fo);
    let ff = |f: FuncInfo| field(3, enc_func(f));
    assert forall|i: int| 0 <= i < a.functions@.len() implies ff(a.functions@[i]) == ff(b.functions@[i]) by {
        assert(va.func_types[i] == vb.func_types[i]);
        assert(va.func_types[i] == a.functions@[i].type_id && vb.func_types[i] == b.functions@[i].type_id);
        assert(va.bodies[i] == vb.bodies[i]);
        assert(va.bodies[i] == (a.functions@[i].locals@, operators_view(a.functions@[i].code@)));
        assert(vb.bodies[i] == (b.functions@[i].locals@, operators_view(b.functions@[i].code@)));
        assert(va.func_names[i] == vb.func_names[i]);
        assert(va.func_names[i] == name_view(a.functions@[i].name) && vb.func_names[i] == name_view(b.functions@[i].name));
        lemma_func_encoding(a.functions@[i], b.functions@[i]);
    }
    lemma_concat_congruent(a.functions@, ff, b.functions@, ff);
}

proof fn lemma_concat_step<T>(s: Seq<T>, i: int, f: spec_fn(T) -> Seq<u8>)
    requires
        0 <= i < s.len(),
    ensures
        concat(s.take(i + 1), f) == concat(s.take(i), f) + f(s[i]),
{
    assert(s.take(i + 1).drop_last() =~= s.take(i));
}

proof fn lemma_take_all<T>(s: Seq<T>)
    ensures
        s.take(s.len() as int) == s,
{
    assert(s.take(s.len() as int) =~= s);
}

/// Appends the unsigned varint encoding of `v`.
pub fn push_uleb(out: &mut Vec<u8>, v: u64)
    ensures
        final(out)@ == old(out)@ + uleb(v as nat),
{
    let mut cur: u64 = v;
    while cur >= 128
        invariant
            out@ + uleb(cur as nat) == old(out)@ + uleb(v as nat),
        decreases cur,
    {
        let b: u8 = (cur % 128 + 128) as u8;
        proof {
            assert(uleb(cur as nat) == seq![b] + uleb((cur / 128) as nat));
            assert(out@.push(b) + uleb((cur / 128) as nat) =~= out@ + (seq![b] + uleb((cur / 128) as nat)));
        }
        out.push(b);
        cur = cur / 128;
    }
    proof {
        assert(out@.push(cur as u8) =~= out@ + uleb(cur as nat));
    }
    out.push(cur as u8);
}

/// Appends every byte of `b`.
pub fn push_all(out: &mut Vec<u8>, b: &Vec<u8>)
    ensures
        final(out)@ == old(out)@ + b@,
{
    let mut i: usize = 0;
    while i < b.len()
        invariant
            i <= b.len(),
            out@ == old(out)@ + b@.take(i as int),
        decreases b.len() - i,
    {
        proof {
            assert(b@.take(i as int + 1) =~= b@.take(i as int).push(b@[i as int]));
        }
        out.push(b[i]);
        i = i + 1;
    }
    proof {
        lemma_take_all(b@);
    }
}

/// Appends a tagged field holding `payload`.
pub fn push_field(out: &mut Vec<u8>, tag: u8, payload: &Vec<u8>)
    ensures
        final(out)@ == old(out)@ + field(tag, payload@),
{
    out.push(tag);
    push_uleb(out, payload.len() as u64);
    push_all(out, payload);
    proof {
        assert(out@ =~= old(out)@ + field(tag, payload@));
    }
}

fn value_type_code(t: ValueType) -> (r: u8)
    ensures
        r == value_type_byte(t),
{
    match t {
        ValueType::I32 => 0x7f,
        ValueType::I64 => 0x7e,
        ValueType::F32 => 0x7d,
        ValueType::F64 => 0x7c,
    }
}

fn encode_value_types(ts: &Vec<ValueType>) -> (r: Vec<u8>)
    ensures
        r@ == enc_value_types(ts@),
{
    let mut out: Vec<u8> = Vec::new();
    let mut i: usize = 0;
    while i < ts.len()
        invariant
            i <= ts.len(),
            out@ == enc_value_types(ts@.take(i as int)),
        decreases ts.len() - i,
    {
        proof {
            lemma_concat_step(ts@, i as int, |t: ValueType| seq![value_type_byte(t)]);
        }
        out.push(value_type_code(ts[i]));
        i = i + 1;
    }
    proof {
        lemma_take_all(ts@);
    }
    out
}

/// Encodes a function type.
pub fn encode_func_type(ft: &FuncType) -> (r: Vec<u8>)
    ensures
        r@ == enc_func_type(*ft),
{
    let mut out: Vec<u8> = Vec::new();
    push_field(&mut out, 1, &encode_value_types(&ft.params));
    push_field(&mut out, 2, &encode_value_types(&ft.results));
    proof {
        assert(out@ =~= enc_func_type(*ft));
    }
    out
}

fn uleb_bytes(v: u64) -> (r: Vec<u8>)
    ensures
        r@ == uleb(v as nat),
{
    let mut out: Vec<u8> = Vec::new();
    push_uleb(&mut out, v);
    proof {
        assert(out@ =~= uleb(v as nat));
    }
    out
}

fn push_opt_field(out: &mut Vec<u8>, tag: u8, v: &Option<Vec<u8>>)
    ensures
        final(out)@ == old(out)@ + opt_field(tag, name_view(*v)),
{
    match v {
        Some(p) => push_field(out, tag, p),
        None => {
            proof {
                assert(out@ =~= out@ + Seq::<u8>::empty());
            }
        },
    }
}

/// Encodes a limits structure.
pub fn encode_limits(l: &Limits) -> (r: Vec<u8>)
    ensures
        r@ == enc_limits(*l),
{
    let mut out: Vec<u8> = Vec::new();
    push_field(&mut out, 1, &uleb_bytes(l.initial as u64));
    match l.maximum {
        Some(x) => push_field(&mut out, 2, &uleb_bytes(x as u64)),
        None => {},
    }
    proof {
        assert(out@ =~= enc_limits(*l));
    }
    out
}

/// Encodes a function import.
pub fn encode_func_import(f: &FuncImportInfo) -> (r: Vec<u8>)
    ensures
        r@ == enc_func_import(*f),
{
    let mut out: Vec<u8> = Vec::new();
    push_field(&mut out, 1, &f.module);
    push_field(&mut out, 2, &f.field);
    push_field(&mut out, 3, &uleb_bytes(f.type_id as u64));
    push_opt_field(&mut out, 4, &f.name);
    proof {
        assert(out@ =~= enc_func_import(*f));
    }
    out
}

/// Encodes an import of a table, a memory or a global.
pub fn encode_other_import(o: &OtherImport) -> (r: Vec<u8>)
    ensures
        r@ == enc_other_import(*o),
{
    let mut out: Vec<u8> = Vec::new();
    push_field(&mut out, 1, &o.module);
    push_field(&mut out, 2, &o.field);
    match o.desc {
        ImportDesc::Table(t) => push_field(&mut out, 3, &encode_limits(&t.limits)),
        ImportDesc::Memory(mem) => push_field(&mut out, 4, &encode_limits(&mem.limits)),
        ImportDesc::Global { ty, mutable } => {
            let g: Vec<u8> = vec![value_type_code(ty), if mutable { 1u8 } else { 0u8 }];
            proof {
                assert(g@ =~= seq![value_type_byte(ty), if mutable { 1u8 } else { 0u8 }]);
            }
            push_field(&mut out, 5, &g);
        },
    }
    proof {
        assert(out@ =~= enc_other_import(*o));
    }
    out
}

/// Encodes one instruction.
pub fn encode_operator(o: &Operator) -> (r: Vec<u8>)
    ensures
        r@ == enc_operator(*o),
{
    let mut out: Vec<u8> = Vec::new();
    match o {
        Operator::Simple { opcode } => {
            out.push(*opcode);
        },
        Operator::Block { opcode, block_type } => {
            out.push(*opcode);
            out.push(*block_type);
        },
        Operator::Index { opcode, index } => {
            out.push(*opcode);
            push_uleb(&mut out, *index as u64);
        },
        Operator::BrTable { targets, default } => {
            out.push(0x0e);
            push_uleb(&mut out, targets.len() as u64);
            let ghost head = out@;
            let mut i: usize = 0;
            while i < targets.len()
                invariant
                    i <= targets.len(),
                    out@ == head + enc_u32s(targets@.take(i as int)),
                decreases targets.len() - i,
            {
                proof {
                    lemma_concat_step(targets@, i as int, |x: u32| uleb(x as nat));
                }
                push_uleb(&mut out, targets[i] as u64);
                proof {
                    assert(out@ =~= head + enc_u32s(targets@.take(i as int + 1)));
                }
                i = i + 1;
            }
            proof {
                lemma_take_all(targets@);
            }
            push_uleb(&mut out, *default as u64);
        },
        Operator::CallIndirect { type_index } => {
            out.push(0x11);
            push_uleb(&mut out, *type_index as u64);
        },
        Operator::Memory { opcode, align, offset } => {
            out.push(*opcode);
            push_uleb(&mut out, *align as u64);
            push_uleb(&mut out, *offset as u64);
        },
        Operator::I32Const(v) => {
            out.push(0x41);
            push_uleb(&mut out, *v as u32 as u64);
        },
        Operator::I64Const(v) => {
            out.push(0x42);
            push_uleb(&mut out, *v as u64);
        },
        Operator::Opaque { opcode, immediate } => {
            out.push(*opcode);
            push_all(&mut out, immediate);
        },
    }
    proof {
        assert(out@ =~= enc_operator(*o));
    }
    out
}

/// Encodes a local function.
pub fn encode_func(f: &FuncInfo) -> (r: Vec<u8>)
    ensures
        r@ == enc_func(*f),
{
    let mut out: Vec<u8> = Vec::new();
    push_field(&mut out, 1, &uleb_bytes(f.type_id as u64));
    let ghost head = out@;
    let mut i: usize = 0;
    while i < f.locals.len()
        invariant
            i <= f.locals.len(),
            out@ == head + concat(f.locals@.take(i as int), |l: LocalInfo| field(2, enc_local(l))),
        decreases f.locals.len() - i,
    {
        proof {
            lemma_concat_step(f.locals@, i as int, |l: LocalInfo| field(2, enc_local(l)));
        }
        let l = f.locals[i];
        let mut e = uleb_bytes(l.count as u64);
        e.push(value_type_code(l.ty));
        proof {
            assert(e@ =~= enc_local(l));
        }
        push_field(&mut out, 2, &e);
        proof {
            assert(out@ =~= head + concat(f.locals@.take(i as int + 1), |l: LocalInfo| field(2, enc_local(l))));
        }
        i = i + 1;
    }
    proof {
        lemma_take_all(f.locals@);
    }
    let ghost head2 = out@;
    let mut j: usize = 0;
    while j < f.code.len()
        invariant
            j <= f.code.len(),
            out@ == head2 + concat(f.code@.take(j as int), |o: Operator| field(3, enc_operator(o))),
        decreases f.code.len() - j,
    {
        proof {
            lemma_concat_step(f.code@, j as int, |o: Operator| field(3, enc_operator(o)));
        }
        push_field(&mut out, 3, &encode_operator(&f.code[j]));
        proof {
            assert(out@ =~= head2 + concat(f.code@.take(j as int + 1), |o: Operator| field(3, enc_operator(o))));
        }
        j = j + 1;
    }
    proof {
        lemma_take_all(f.code@);
    }
    push_opt_field(&mut out, 4, &f.name);
    proof {
        assert(out@ =~= enc_func(*f));
    }
    out
}

fn push_types(out: &mut Vec<u8>, v: &Vec<FuncType>)
    ensures
        final(out)@ == old(out)@ + concat(v@, |x: FuncType| field(1, enc_func_type(x))),
{
    let ghost head = out@;
    let mut i: usize = 0;
    while i < v.len()
        invariant
            i <= v.len(),
            out@ == head + concat(v@.take(i as int), |x: FuncType| field(1, enc_func_type(x))),
            head == old(out)@,
        decreases v.len() - i,
    {
        proof {
            lemma_concat_step(v@, i as int, |x: FuncType| field(1, enc_func_type(x)));
        }
        push_field(out, 1, &encode_func_type(&v[i]));
        proof {
            assert(out@ =~= head + concat(v@.take(i as int + 1), |x: FuncType| field(1, enc_func_type(x))));
        }
        i = i + 1;
    }
    proof {
        lemma_take_all(v@);
    }
}

fn push_func_imports(out: &mut Vec<u8>, v: &Vec<FuncImportInfo>)
    ensures
        final(out)@ == old(out)@ + concat(v@, |x: FuncImportInfo| field(2, enc_func_import(x))),
{
    let ghost head = out@;
    let mut i: usize = 0;
    while i < v.len()
        invariant
            i <= v.len(),
            out@ == head + concat(v@.take(i as int), |x: FuncImportInfo| field(2, enc_func_import(x))),
            head == old(out)@,
        decreases v.len() - i,
    {
        proof {
            lemma_concat_step(v@, i as int, |x: FuncImportInfo| field(2, enc_func_import(x)));
        }
        push_field(out, 2, &encode_func_import(&v[i]));
        proof {
            assert(out@ =~= head + concat(v@.take(i as int + 1), |x: FuncImportInfo| field(2, enc_func_import(x))));
        }
        i = i + 1;
    }
    proof {
        lemma_take_all(v@);
    }
}

fn push_other_imports(out: &mut Vec<u8>, v: &Vec<OtherImport>)
    ensures
        final(out)@ == old(out)@ + concat(v@, |x: OtherImport| field(7, enc_other_import(x))),
{
    let ghost head = out@;
    let mut i: usize = 0;
    while i < v.len()
        invariant
            i <= v.len(),
            out@ == head + concat(v@.take(i as int), |x: OtherImport| field(7, enc_other_import(x))),
            head == old(out)@,
        decreases v.len() - i,
    {
        proof {
            lemma_concat_step(v@, i as int, |x: OtherImport| field(7, enc_other_import(x)));
        }
        push_field(out, 7, &encode_other_import(&v[i]));
        proof {
            assert(out@ =~= head + concat(v@.take(i as int + 1), |x: OtherImport| field(7, enc_other_import(x))));
        }
        i = i + 1;
    }
    proof {
        lemma_take_all(v@);
    }
}

fn push_funcs(out: &mut Vec<u8>, v: &Vec<FuncInfo>)
    ensures
        final(out)@ == old(out)@ + concat(v@, |x: FuncInfo| field(3, enc_func(x))),
{
    let ghost head = out@;
    let mut i: usize = 0;
    while i < v.len()
        invariant
            i <= v.len(),
            out@ == head + concat(v@.take(i as int), |x: FuncInfo| field(3, enc_func(x))),
            head == old(out)@,
        decreases v.len() - i,
    {
        proof {
            lemma_concat_step(v@, i as int, |x: FuncInfo| field(3, enc_func(x)));
        }
        push_field(out, 3, &encode_func(&v[i]));
        proof {
            assert(out@ =~= head + concat(v@.take(i as int + 1), |x: FuncInfo| field(3, enc_func(x))));
        }
        i = i + 1;
    }
    proof {
        lemma_take_all(v@);
    }
}

fn push_tables(out: &mut Vec<u8>, v: &Vec<TableInfo>)
    ensures
        final(out)@ == old(out)@ + concat(v@, |x: TableInfo| field(4, enc_limits(x.limits))),
{
    let ghost head = out@;
    let mut i: usize = 0;
    while i < v.len()
        invariant
            i <= v.len(),
            out@ == head + concat(v@.take(i as int), |x: TableInfo| field(4, enc_limits(x.limits))),
            head == old(out)@,
        decreases v.len() - i,
    {
        proof {
            lemma_concat_step(v@, i as int, |x: TableInfo| field(4, enc_limits(x.limits)));
        }
        push_field(out, 4, &encode_limits(&v[i].limits));
        proof {
            assert(out@ =~= head + concat(v@.take(i as int + 1), |x: TableInfo| field(4, enc_limits(x.limits))));
        }
        i = i + 1;
    }
    proof {
        lemma_take_all(v@);
    }
}

fn push_memories(out: &mut Vec<u8>, v: &Vec<MemoryInfo>)
    ensures
        final(out)@ == old(out)@ + concat(v@, |x: MemoryInfo| field(5, enc_limits(x.limits))),
{
    let ghost head = out@;
    let mut i: usize = 0;
    while i < v.len()
        invariant
            i <= v.len(),
            out@ == head + concat(v@.take(i as int), |x: MemoryInfo| field(5, enc_limits(x.limits))),
            head == old(out)@,
        decreases v.len() - i,
    {
        proof {
            lemma_concat_step(v@, i as int, |x: MemoryInfo| field(5, enc_limits(x.limits)));
        }
        push_field(out, 5, &encode_limits(&v[i].limits));
        proof {
            assert(out@ =~= head + concat(v@.take(i as int + 1), |x: MemoryInfo| field(5, enc_limits(x.limits))));
        }
        i = i + 1;
    }
    proof {
        lemma_take_all(v@);
    }
}

/// Encodes a module into the wire format. The bytes depend on the module
/// alone: equal modules give equal bytes.
pub fn encode_module(m: &ModuleInfo) -> (r: Vec<u8>)
    ensures
        r@ == enc_module(*m),
{
    let mut out: Vec<u8> = vec![0x4d, 0x49, 0x4e, 0x46, WIRE_VERSION];
    push_types(&mut out, &m.types);
    push_func_imports(&mut out, &m.func_imports);
    push_other_imports(&mut out, &m.other_imports);
    push_funcs(&mut out, &m.functions);
    push_tables(&mut out, &m.tables);
    push_memories(&mut out, &m.memories);
    match m.start_func {
        Some(x) => push_field(&mut out, 6, &uleb_bytes(x as u64)),
        None => {},
    }
    proof {
        assert(out@ =~= enc_module(*m));
    }
    out
}

} // verus!
