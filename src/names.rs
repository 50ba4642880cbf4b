use vstd::prelude::*;
use crate::error::DecodeError;
use crate::model::ModuleInfo;
use crate::reader::{read_byte, read_name, read_u32, spec_byte, spec_name, spec_u32};

verus! {

/// A name as a sequence of bytes, if there is one.
pub open spec fn name_view(n: Option<Vec<u8>>) -> Option<Seq<u8>> {
    match n {
        Some(v) => Some(v@),
        None => None,
    }
}

/// The names over the whole function index space: imports first, then
/// local functions.
pub open spec fn fn_names(m: ModuleInfo) -> Seq<Option<Seq<u8>>> {
    Seq::new(
        m.num_funcs() as nat,
        |i: int|
            if i < m.func_imports@.len() {
                name_view(m.func_imports@[i].name)
            } else {
                name_view(m.functions@[i - m.func_imports@.len()].name)
            },
    )
}

/// `b` differs from `a` at most in the names of its functions.
pub open spec fn same_but_names(a: ModuleInfo, b: ModuleInfo) -> bool {
    &&& b.types == a.types
    &&& b.other_imports == a.other_imports
    &&& b.tables == a.tables
    &&& b.memories == a.memories
    &&& b.start_func == a.start_func
    &&& b.func_imports@.len() == a.func_imports@.len()
    &&& b.functions@.len() == a.functions@.len()
    &&& forall|i: int| 0 <= i < a.func_imports@.len() ==> {
        &&& (#[trigger] b.func_imports@[i]).module == a.func_imports@[i].module
        &&& b.func_imports@[i].field == a.func_imports@[i].field
        &&& b.func_imports@[i].type_id == a.func_imports@[i].type_id
    }
    &&& forall|i: int| 0 <= i < a.functions@.len() ==> {
        &&& (#[trigger] b.functions@[i]).type_id == a.functions@[i].type_id
        &&& b.functions@[i].locals == a.functions@[i].locals
        &&& b.functions@[i].code == a.functions@[i].code
    }
}

/// `n` function name entries, each an index and a name, applied one after
/// the other to `names`; an index outside the function index space is
/// refused.
pub open spec fn spec_name_entries(s: Seq<u8>, pos: int, n: nat, names: Seq<Option<Seq<u8>>>) -> Result<(Seq<Option<Seq<u8>>>, int), DecodeError>
    decreases n,
{
    if n == 0 {
        Ok((names, pos))
    } else {
        match spec_u32(s, pos) {
            Ok((index, p)) => match spec_name(s, p) {
                Ok((name, q)) => if index >= names.len() {
                    Err(DecodeError::InvalidNameIndex)
                } else {
                    spec_name_entries(s, q, (n - 1) as nat, names.update(index as int, Some(name)))
                },
                Err(e) => Err(e),
            },
            Err(e) => Err(e),
        }
    }
}

/// The subsections of the name section from `pos` on, applied to `names`:
/// function names (id 1) rename, other subsections are skipped, and each
/// subsection's content must be used up exactly.
pub open spec fn spec_name_subsections(s: Seq<u8>, pos: int, names: Seq<Option<Seq<u8>>>) -> Result<Seq<Option<Seq<u8>>>, DecodeError>
    decreases s.len() - pos,
{
    if pos < 0 || pos >= s.len() {
        Ok(names)
    } else {
        match spec_byte(s, pos) {
            Ok((id, q)) => match spec_u32(s, q) {
                Ok((size, c)) => if c + size > s.len() {
                    Err(DecodeError::UnexpectedEof)
                } else if c <= pos {
                    Ok(names)
                } else if id == 1 {
                    let sub = s.subrange(c, c + size);
                    match spec_u32(sub, 0) {
                        Ok((n, t)) => match spec_name_entries(sub, t, n, names) {
                            Ok((renamed, e)) => if e != sub.len() {
                                Err(DecodeError::TruncatedSection)
                            } else {
                                spec_name_subsections(s, c + size, renamed)
                            },
                            Err(e) => Err(e),
                        },
                        Err(e) => Err(e),
                    }
                } else {
                    spec_name_subsections(s, c + size, names)
                },
                Err(e) => Err(e),
            },
            Err(e) => Err(e),
        }
    }
}

/// Gives the function at `index` of the function index space the name
/// `name`: an index below the number of imports names an import, the next
/// ones name the local functions in order, and any other index is refused
/// with nothing changed.
pub fn apply_function_name(m: &mut ModuleInfo, index: u32, name: Vec<u8>) -> (r: Result<(), DecodeError>)
    ensures
        (index as int) < old(m).num_funcs() <==> r is Ok,
        r is Err ==> r == Err::<(), DecodeError>(DecodeError::InvalidNameIndex) && *final(m) == *old(m),
        final(m).types == old(m).types,
        final(m).other_imports == old(m).other_imports,
        final(m).tables == old(m).tables,
        final(m).memories == old(m).memories,
        final(m).start_func == old(m).start_func,
        final(m).func_imports@.len() == old(m).func_imports@.len(),
        final(m).functions@.len() == old(m).functions@.len(),
        (index as int) < old(m).func_imports@.len() ==> {
            &&& final(m).func_imports@[index as int].name == Some(name)
            &&& final(m).func_imports@[index as int].module == old(m).func_imports@[index as int].module
            &&& final(m).func_imports@[index as int].field == old(m).func_imports@[index as int].field
            &&& final(m).func_imports@[index as int].type_id == old(m).func_imports@[index as int].type_id
            &&& forall|i: int| 0 <= i < old(m).func_imports@.len() && i != index ==> final(m).func_imports@[i] == old(m).func_imports@[i]
            &&& final(m).functions == old(m).functions
        },
        old(m).func_imports@.len() <= (index as int) < old(m).num_funcs() ==> {
            let k = index - old(m).func_imports@.len();
            &&& final(m).functions@[k].name == Some(name)
            &&& final(m).functions@[k].type_id == old(m).functions@[k].type_id
            &&& final(m).functions@[k].locals == old(m).functions@[k].locals
            &&& final(m).functions@[k].code == old(m).functions@[k].code
            &&& forall|i: int| 0 <= i < old(m).functions@.len() && i != k ==> final(m).functions@[i] == old(m).functions@[i]
            &&& final(m).func_imports == old(m).func_imports
        },
        same_but_names(*old(m), *final(m)),
        r is Ok ==> fn_names(*final(m)) == fn_names(*old(m)).update(index as int, Some(name@)),
{
    let i = index as usize;
    let ghost nv = name@;
    if i < m.func_imports.len() {
        m.func_imports[i].name = Some(name);
        proof {
            assert(fn_names(*m) =~= fn_names(*old(m)).update(index as int, Some(nv)));
        }
        Ok(())
    } else if i - m.func_imports.len() < m.functions.len() {
        let k = i - m.func_imports.len();
        m.functions[k].name = Some(name);
        proof {
            assert(fn_names(*m) =~= fn_names(*old(m)).update(index as int, Some(nv)));
        }
        Ok(())
    } else {
        Err(DecodeError::InvalidNameIndex)
    }
}

/// Reads the payload of the name section that follows its own name: a run
/// of subsections, each an id byte, a size and its content. Function names
/// (id 1) are applied to the module; other subsections are skipped. Each
/// subsection's content must be used up exactly.
pub fn decode_name_section(payload: &[u8], pos: usize, m: &mut ModuleInfo) -> (r: Result<(), DecodeError>)
    requires
        old(m).wf(),
    ensures
        final(m).wf(),
        same_but_names(*old(m), *final(m)),
        match spec_name_subsections(payload@, pos as int, fn_names(*old(m))) {
            Ok(names) => r is Ok && fn_names(*final(m)) == names,
            Err(e) => r == Err::<(), DecodeError>(e),
        },
{
    let mut p: usize = pos;
    while p < payload.len()
        invariant
            m.wf(),
            same_but_names(*old(m), *m),
            pos <= p,
            spec_name_subsections(payload@, pos as int, fn_names(*old(m))) == spec_name_subsections(payload@, p as int, fn_names(*m)),
        decreases payload.len() - p,
    {
        let (id, q) = read_byte(payload, p)?;
        let (size, c) = read_u32(payload, q)?;
        if size as usize > payload.len() - c {
            return Err(DecodeError::UnexpectedEof);
        }
        let end = c + size as usize;
        if id == 1 {
            let sub = &payload[c..end];
            let (n, s0) = read_u32(sub, 0)?;
            let mut s: usize = s0;
            let mut i: u32 = 0;
            let ghost start_names = fn_names(*m);
            proof {
                assert(sub@ == payload@.subrange(c as int, end as int));
                assert(spec_name_subsections(payload@, p as int, start_names) == match spec_name_entries(sub@, s0 as int, n as nat, start_names) {
                    Ok((renamed, e)) => if e != sub@.len() {
                        Err(DecodeError::TruncatedSection)
                    } else {
                        spec_name_subsections(payload@, end as int, renamed)
                    },
                    Err(e) => Err::<Seq<Option<Seq<u8>>>, DecodeError>(e),
                });
            }
            while i < n
                invariant
                    m.wf(),
                    same_but_names(*old(m), *m),
                    s <= sub.len(),
                    i <= n,
                    spec_name_subsections(payload@, pos as int, fn_names(*old(m))) == match spec_name_entries(sub@, s0 as int, n as nat, start_names) {
                        Ok((renamed, e)) => if e != sub@.len() {
                            Err(DecodeError::TruncatedSection)
                        } else {
                            spec_name_subsections(payload@, end as int, renamed)
                        },
                        Err(e) => Err::<Seq<Option<Seq<u8>>>, DecodeError>(e),
                    },
                    spec_name_entries(sub@, s0 as int, n as nat, start_names) == spec_name_entries(sub@, s as int, (n - i) as nat, fn_names(*m)),
                decreases n - i,
            {
                let (index, t) = read_u32(sub, s)?;
                let (name, u) = read_name(sub, t)?;
                proof {
                    assert(fn_names(*m).len() == m.num_funcs());
                }
                apply_function_name(m, index, name)?;
                s = u;
                i = i + 1;
            }
            if s != sub.len() {
                return Err(DecodeError::TruncatedSection);
            }
        }
        p = end;
    }
    Ok(())
}

} // verus!
