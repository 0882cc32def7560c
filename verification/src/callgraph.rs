//! The call-graph extractor: the ordered invoke targets of one
//! method's code.
//!
//! The bytecode container's symbol tables are handed in as plain
//! values: the method table gives each method a type index and a
//! name index, which resolve through the type-descriptor and string
//! tables.  Targets whose indices have no table entry are skipped;
//! the stream continues.

use vstd::prelude::*;

use crate::disass::{
    disassemble, lemma_decode_ok_bounds, spec_decode, spec_is_invoke, spec_units_to_bytes,
    DecodeError,
};
use crate::opcodes::spec_format_of;

verus! {

/// One entry of the method table: the indices that name the method.
#[derive(Clone, Copy, PartialEq, Eq, Structural, Debug)]
pub struct MethodSym {
    /// Index into the type-descriptor table of the defining class.
    pub class_idx: u64,
    /// Index into the string table of the method name.
    pub name_idx: u64,
}

/// The symbol tables of one bytecode file, as plain values.
pub struct SymbolTables {
    /// The method table, addressed by an invoke instruction's
    /// target index.
    pub methods: Vec<MethodSym>,
    /// The type-descriptor table, addressed by `class_idx`.
    pub types: Vec<String>,
    /// The string table, addressed by `name_idx`.
    pub strings: Vec<String>,
}

/// A fully qualified target of an invoke instruction.
#[derive(Debug)]
pub struct MethodRef {
    /// Type descriptor of the defining class.
    pub class_name: String,
    /// Name of the invoked method.
    pub method_name: String,
}

impl View for MethodRef {
    type V = (Seq<char>, Seq<char>);

    open spec fn view(&self) -> (Seq<char>, Seq<char>) {
        (self.class_name@, self.method_name@)
    }
}

impl DeepView for MethodRef {
    type V = (Seq<char>, Seq<char>);

    open spec fn deep_view(&self) -> (Seq<char>, Seq<char>) {
        self.view()
    }
}

/// The method the given method-table index names, or `None` where
/// an index has no table entry.
pub open spec fn spec_resolve(t: &SymbolTables, idx: u64) -> Option<(Seq<char>, Seq<char>)> {
    if idx < t.methods@.len() {
        let m = t.methods@[idx as int];
        if m.class_idx < t.types@.len() && m.name_idx < t.strings@.len() {
            Some((t.types@[m.class_idx as int]@, t.strings@[m.name_idx as int]@))
        } else {
            None
        }
    } else {
        None
    }
}

/// The resolved targets of the invoke instructions of the code in
/// `buf` between `off` and `limit`, in stream order.  Decoding stops
/// at the first error; unresolvable targets are skipped.
pub open spec fn spec_invoked(buf: Seq<u8>, off: int, limit: int, t: &SymbolTables) -> Seq<
    (Seq<char>, Seq<char>),
>
    decreases limit - off,
    via spec_invoked_dec
{
    if off < 0 || off >= limit {
        Seq::empty()
    } else {
        match spec_decode(buf, off) {
            Err(_) => Seq::empty(),
            Ok(l) => {
                let next = if off + l < limit {
                    off + l
                } else {
                    limit
                };
                let rest = spec_invoked(buf, next, limit, t);
                if spec_is_invoke(buf[off]) {
                    let fmt = spec_format_of(buf[off]).unwrap();
                    let b = fmt.spec_b(buf.subrange(off, off + l));
                    match spec_resolve(t, b) {
                        Some(p) => seq![p] + rest,
                        None => rest,
                    }
                } else {
                    rest
                }
            },
        }
    }
}

#[via_fn]
proof fn spec_invoked_dec(buf: Seq<u8>, off: int, limit: int, t: &SymbolTables) {
    if 0 <= off && off < limit {
        match spec_decode(buf, off) {
            Ok(l) => {
                lemma_decode_ok_bounds(buf, off, l);
            },
            Err(_) => {},
        }
    }
}

/// `spec_invoked`, each target rendered as
/// `"<type-descriptor>-><method-name>"`.
pub open spec fn spec_invoked_names(buf: Seq<u8>, off: int, limit: int, t: &SymbolTables) -> Seq<
    Seq<char>,
> {
    spec_invoked(buf, off, limit, t).map(|i: int, p: (Seq<char>, Seq<char>)| p.0 + "->"@ + p.1)
}

/// Look a method-table index up in the symbol tables.
fn resolve(t: &SymbolTables, idx: u64) -> (r: Option<MethodRef>)
    ensures
        r.is_some() == spec_resolve(t, idx).is_some(),
        r.is_some() ==> r.unwrap()@ == spec_resolve(t, idx).unwrap(),
{
    if idx < t.methods.len() as u64 {
        let m = t.methods[idx as usize];
        if m.class_idx < t.types.len() as u64 && m.name_idx < t.strings.len() as u64 {
            Some(
                MethodRef {
                    class_name: t.types[m.class_idx as usize].clone(),
                    method_name: t.strings[m.name_idx as usize].clone(),
                },
            )
        } else {
            None
        }
    } else {
        None
    }
}

/// The ordered, resolved targets of every invoke instruction in one
/// method's code.
///
/// The order is the order the instructions appear in: it is part of
/// the fingerprint's determinism contract.  A decode error ends the
/// stream; an unresolvable target index is skipped and the stream
/// continues.
pub fn get_invoked_methods(units: &[u16], t: &SymbolTables) -> (r: Vec<MethodRef>)
    requires
        2 * units@.len() <= usize::MAX,
    ensures
        r.deep_view() == spec_invoked(
            spec_units_to_bytes(units@),
            0,
            2 * units@.len() as int,
            t,
        ),
{
    let ghost buf = spec_units_to_bytes(units@);
    let ghost limit = 2 * units@.len() as int;
    let mut it = disassemble(units);
    let mut r: Vec<MethodRef> = Vec::new();
    loop
        invariant
            it.buf() == buf,
            it.limit() == limit,
            buf.len() == limit,
            0 <= it.pos() <= limit,
            r.deep_view() + spec_invoked(buf, it.pos(), limit, t) == spec_invoked(
                buf,
                0,
                limit,
                t,
            ),
        ensures
            r.deep_view() == spec_invoked(buf, 0, limit, t),
        decreases limit - it.pos(),
    {
        let ghost pos0 = it.pos();
        let ghost r0 = r.deep_view();
        match it.next() {
            None => {
                proof {
                    assert(spec_invoked(buf, pos0, limit, t) =~= Seq::empty());
                    assert(r.deep_view() + Seq::empty() =~= r.deep_view());
                }
                break ;
            },
            Some(Err(_)) => {
                proof {
                    assert(spec_invoked(buf, pos0, limit, t) =~= Seq::empty());
                    assert(r.deep_view() + Seq::empty() =~= r.deep_view());
                }
                break ;
            },
            Some(Ok(i)) => {
                let ghost l = i@.len() as int;
                proof {
                    lemma_decode_ok_bounds(buf, pos0, l);
                    assert(i@ == buf.subrange(pos0, pos0 + l));
                    assert(i@[0] == buf[pos0]);
                }
                if i.is_invoke() {
                    match i.invoke_target() {
                        Ok(b) => {
                            match resolve(t, b) {
                                Some(mr) => {
                                    let ghost p = spec_resolve(t, b).unwrap();
                                    r.push(mr);
                                    proof {
                                        assert(spec_invoked(buf, pos0, limit, t) == seq![p]
                                            + spec_invoked(buf, pos0 + l, limit, t));
                                        assert(r.deep_view() =~= r0.push(p));
                                        assert(r0.push(p) + spec_invoked(buf, pos0 + l, limit, t)
                                            =~= r0 + spec_invoked(buf, pos0, limit, t));
                                    }
                                },
                                None => {
                                    proof {
                                        assert(spec_invoked(buf, pos0, limit, t) == spec_invoked(
                                            buf,
                                            pos0 + l,
                                            limit,
                                            t,
                                        ));
                                    }
                                },
                            }
                        },
                        Err(_) => {},
                    }
                } else {
                    proof {
                        assert(spec_invoked(buf, pos0, limit, t) == spec_invoked(
                            buf,
                            pos0 + l,
                            limit,
                            t,
                        ));
                    }
                }
            },
        }
    }
    r
}

/// The ordered invoke targets of one method's code, each rendered as
/// `"<type-descriptor>-><method-name>"`.
pub fn get_invoked_methods_names(units: &[u16], t: &SymbolTables) -> (r: Vec<String>)
    requires
        2 * units@.len() <= usize::MAX,
    ensures
        r.deep_view() == spec_invoked_names(
            spec_units_to_bytes(units@),
            0,
            2 * units@.len() as int,
            t,
        ),
{
    let refs = get_invoked_methods(units, t);
    let ghost full = spec_invoked(spec_units_to_bytes(units@), 0, 2 * units@.len() as int, t);
    let n = refs.len();
    let mut r: Vec<String> = Vec::new();
    let mut k: usize = 0;
    while k < n
        invariant
            n == refs@.len(),
            refs.deep_view() == full,
            k <= n,
            r@.len() == k,
            forall|j: int| 0 <= j < k ==> r@[j]@ == full[j].0 + "->"@ + full[j].1,
        decreases n - k,
    {
        let mut s = refs[k].class_name.clone();
        s.append("->");
        s.append(refs[k].method_name.as_str());
        proof {
            assert(refs.deep_view()[k as int] == full[k as int]);
            assert(s@ == full[k as int].0 + "->"@ + full[k as int].1);
        }
        r.push(s);
        k = k + 1;
    }
    proof {
        assert(full.len() == refs.deep_view().len());
        assert(r.deep_view() =~~= spec_invoked_names(
            spec_units_to_bytes(units@),
            0,
            2 * units@.len() as int,
            t,
        ));
    }
    r
}

} // verus!
