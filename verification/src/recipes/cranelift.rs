//! The table of functions that compiled code may apply: for each, its
//! machine signature, the types of its parameters, and how a call of it is
//! emitted.

use vstd::prelude::*;
use crate::ast::{Type, opt_str};
use crate::opt::{MachineType, IntCond, machine_type_of};

verus! {

/// How a call of a known function is emitted.
#[derive(Clone, Copy, Debug, PartialEq, Eq, Structural)]
pub enum Emission {
    /// A call of the runtime function of the same name.
    Call,
    Iadd,
    Isub,
    Imul,
    Udiv,
    Urem,
    /// A comparison whose result is 0 or 1.
    Compare(IntCond),
    /// 1 where the argument is 0, else 0.
    IsZero,
    Bor,
    /// The argument itself.
    Same,
}

/// A function known to the compiler: its machine signature, the types of
/// its parameters, its name, how a call is emitted, and the type of its result.
pub struct FFI {
    pub args: Vec<MachineType>,
    pub arg_types: Vec<Type>,
    pub name: String,
    pub emission: Emission,
    pub rname: String,
    pub rtype: MachineType,
}

/// Every entry's result type is named by a type whose machine type is the
/// entry's machine result type.
pub open spec fn lib_ok(lib: Seq<FFI>) -> bool {
    forall|i: int| 0 <= i < lib.len() ==> machine_type_of(Some(#[trigger] lib[i].rname@)) == Some(lib[i].rtype)
}

/// The entry with the given parts; the parameter types are named `arg_names`.
pub fn entry(args: Vec<MachineType>, arg_names: Vec<&str>, name: &str, emission: Emission, rname: &str, rtype: MachineType) -> (res: FFI)
    ensures
        res.args@ == args@,
        res.arg_types@.len() == arg_names@.len(),
        forall|i: int| 0 <= i < arg_names@.len() ==> opt_str(#[trigger] res.arg_types@[i].name) == Some(arg_names@[i]@),
        res.name@ == name@,
        res.emission == emission,
        res.rname@ == rname@,
        res.rtype == rtype,
{
    let mut arg_types: Vec<Type> = Vec::new();
    let mut k: usize = 0;
    while k < arg_names.len()
        invariant
            k <= arg_names@.len(),
            arg_types@.len() == k,
            forall|i: int| 0 <= i < k ==> opt_str(#[trigger] arg_types@[i].name) == Some(arg_names@[i]@),
        decreases arg_names@.len() - k,
    {
        let t = Type::nominal(arg_names[k]);
        arg_types.push(t);
        k = k + 1;
    }
    FFI { args, arg_types, name: name.to_string(), emission, rname: rname.to_string(), rtype }
}

/// How a known function is described: its name, the machine types of its
/// arguments, the type names of its parameters, how a call of it is
/// emitted, and the type name and machine type of its result.
pub struct Known {
    pub name: Seq<char>,
    pub args: Seq<MachineType>,
    pub arg_names: Seq<Seq<char>>,
    pub emission: Emission,
    pub rname: Seq<char>,
    pub rtype: MachineType,
}

/// The description with the given parts.
pub open spec fn known(name: Seq<char>, args: Seq<MachineType>, arg_names: Seq<Seq<char>>, emission: Emission, rname: Seq<char>, rtype: MachineType) -> Known {
    Known { name, args, arg_names, emission, rname, rtype }
}

/// The entry `f` is as `k` describes it.
pub open spec fn entry_is(f: FFI, k: Known) -> bool {
    &&& f.name@ == k.name
    &&& f.args@ == k.args
    &&& f.arg_types@.len() == k.arg_names.len()
    &&& (forall|i: int| 0 <= i < k.arg_names.len() ==> opt_str(#[trigger] f.arg_types@[i].name) == Some(k.arg_names[i]))
    &&& f.emission == k.emission
    &&& f.rname@ == k.rname
    &&& f.rtype == k.rtype
}

/// The entries `fs` are as `ks` describes them, one for one.
pub open spec fn entries_are(fs: Seq<FFI>, ks: Seq<Known>) -> bool {
    fs.len() == ks.len() && forall|i: int| 0 <= i < fs.len() ==> entry_is(#[trigger] fs[i], ks[i])
}

/// Entries described one for one, followed by more, are described by the
/// descriptions followed by theirs.
pub proof fn lemma_entries_append(a: Seq<FFI>, ka: Seq<Known>, b: Seq<FFI>, kb: Seq<Known>)
    requires
        entries_are(a, ka),
        entries_are(b, kb),
    ensures
        entries_are(a + b, ka + kb),
{
    assert forall|i: int| 0 <= i < (a + b).len() implies entry_is(#[trigger] (a + b)[i], (ka + kb)[i]) by {
        if i < a.len() {
            assert((a + b)[i] == a[i]);
            assert((ka + kb)[i] == ka[i]);
        } else {
            assert((a + b)[i] == b[i - a.len()]);
            assert((ka + kb)[i] == kb[i - a.len()]);
        }
    }
}

/// The functions known to the compiler, as the table describes them, in
/// its order.
pub open spec fn known_table() -> Seq<Known> {
    crate::recipes::cranelift_impl::add::table() +
        crate::recipes::cranelift_impl::sub::table() +
        crate::recipes::cranelift_impl::eq::table() +
        crate::recipes::cranelift_impl::ne::table() +
        crate::recipes::cranelift_impl::lt::table() +
        crate::recipes::cranelift_impl::lte::table() +
        crate::recipes::cranelift_impl::gt::table() +
        crate::recipes::cranelift_impl::gte::table() +
        crate::recipes::cranelift_impl::mul::table() +
        crate::recipes::cranelift_impl::div::table() +
        crate::recipes::cranelift_impl::rem::table() +
        crate::recipes::cranelift_impl::not::table() +
        crate::recipes::cranelift_impl::or::table() +
        crate::recipes::cranelift_impl::cast_i64_as_u64::table() +
        crate::recipes::cranelift_impl::cast_u64_as_string::table() +
        crate::recipes::cranelift_impl::range1::table() +
        crate::recipes::cranelift_impl::range2::table() +
        crate::recipes::cranelift_impl::range3::table() +
        crate::recipes::cranelift_impl::std_println::table() +
        crate::recipes::cranelift_impl::string_join2::table() +
        crate::recipes::cranelift_impl::string_push::table() +
        crate::recipes::cranelift_impl::tuple_flatten::table() +
        crate::recipes::cranelift_impl::tuple_index::table() +
        crate::recipes::cranelift_impl::tuple_length::table() +
        crate::recipes::cranelift_impl::tuple_new::table() +
        crate::recipes::cranelift_impl::tuple_push::table() +
        crate::recipes::cranelift_impl::tuple_trim::table()
}

/// Every function known to the compiler.
pub fn import() -> (res: Vec<FFI>)
    ensures
        entries_are(res@, known_table()),
        lib_ok(res@),
{
    let mut imported: Vec<FFI> = Vec::new();
    let ghost mut known: Seq<Known> = Seq::empty();
    let ghost k0 = known;
    let ghost f0 = imported@;
    let mut part = crate::recipes::cranelift_impl::add::import();
    let ghost pv = part@;
    imported.append(&mut part);
    proof {
        lemma_entries_append(f0, k0, pv, crate::recipes::cranelift_impl::add::table());
        known = k0 + crate::recipes::cranelift_impl::add::table();
    }
    let ghost k0 = known;
    let ghost f0 = imported@;
    let mut part = crate::recipes::cranelift_impl::sub::import();
    let ghost pv = part@;
    imported.append(&mut part);
    proof {
        lemma_entries_append(f0, k0, pv, crate::recipes::cranelift_impl::sub::table());
        known = k0 + crate::recipes::cranelift_impl::sub::table();
    }
    let ghost k0 = known;
    let ghost f0 = imported@;
    let mut part = crate::recipes::cranelift_impl::eq::import();
    let ghost pv = part@;
    imported.append(&mut part);
    proof {
        lemma_entries_append(f0, k0, pv, crate::recipes::cranelift_impl::eq::table());
        known = k0 + crate::recipes::cranelift_impl::eq::table();
    }
    let ghost k0 = known;
    let ghost f0 = imported@;
    let mut part = crate::recipes::cranelift_impl::ne::import();
    let ghost pv = part@;
    imported.append(&mut part);
    proof {
        lemma_entries_append(f0, k0, pv, crate::recipes::cranelift_impl::ne::table());
        known = k0 + crate::recipes::cranelift_impl::ne::table();
    }
    let ghost k0 = known;
    let ghost f0 = imported@;
    let mut part = crate::recipes::cranelift_impl::lt::import();
    let ghost pv = part@;
    imported.append(&mut part);
    proof {
        lemma_entries_append(f0, k0, pv, crate::recipes::cranelift_impl::lt::table());
        known = k0 + crate::recipes::cranelift_impl::lt::table();
    }
    let ghost k0 = known;
    let ghost f0 = imported@;
    let mut part = crate::recipes::cranelift_impl::lte::import();
    let ghost pv = part@;
    imported.append(&mut part);
    proof {
        lemma_entries_append(f0, k0, pv, crate::recipes::cranelift_impl::lte::table());
        known = k0 + crate::recipes::cranelift_impl::lte::table();
    }
    let ghost k0 = known;
    let ghost f0 = imported@;
    let mut part = crate::recipes::cranelift_impl::gt::import();
    let ghost pv = part@;
    imported.append(&mut part);
    proof {
        lemma_entries_append(f0, k0, pv, crate::recipes::cranelift_impl::gt::table());
        known = k0 + crate::recipes::cranelift_impl::gt::table();
    }
    let ghost k0 = known;
    let ghost f0 = imported@;
    let mut part = crate::recipes::cranelift_impl::gte::import();
    let ghost pv = part@;
    imported.append(&mut part);
    proof {
        lemma_entries_append(f0, k0, pv, crate::recipes::cranelift_impl::gte::table());
        known = k0 + crate::recipes::cranelift_impl::gte::table();
    }
    let ghost k0 = known;
    let ghost f0 = imported@;
    let mut part = crate::recipes::cranelift_impl::mul::import();
    let ghost pv = part@;
    imported.append(&mut part);
    proof {
        lemma_entries_append(f0, k0, pv, crate::recipes::cranelift_impl::mul::table());
        known = k0 + crate::recipes::cranelift_impl::mul::table();
    }
    let ghost k0 = known;
    let ghost f0 = imported@;
    let mut part = crate::recipes::cranelift_impl::div::import();
    let ghost pv = part@;
    imported.append(&mut part);
    proof {
        lemma_entries_append(f0, k0, pv, crate::recipes::cranelift_impl::div::table());
        known = k0 + crate::recipes::cranelift_impl::div::table();
    }
    let ghost k0 = known;
    let ghost f0 = imported@;
    let mut part = crate::recipes::cranelift_impl::rem::import();
    let ghost pv = part@;
    imported.append(&mut part);
    proof {
        lemma_entries_append(f0, k0, pv, crate::recipes::cranelift_impl::rem::table());
        known = k0 + crate::recipes::cranelift_impl::rem::table();
    }
    let ghost k0 = known;
    let ghost f0 = imported@;
    let mut part = crate::recipes::cranelift_impl::not::import();
    let ghost pv = part@;
    imported.append(&mut part);
    proof {
        lemma_entries_append(f0, k0, pv, crate::recipes::cranelift_impl::not::table());
        known = k0 + crate::recipes::cranelift_impl::not::table();
    }
    let ghost k0 = known;
    let ghost f0 = imported@;
    let mut part = crate::recipes::cranelift_impl::or::import();
    let ghost pv = part@;
    imported.append(&mut part);
    proof {
        lemma_entries_append(f0, k0, pv, crate::recipes::cranelift_impl::or::table());
        known = k0 + crate::recipes::cranelift_impl::or::table();
    }
    let ghost k0 = known;
    let ghost f0 = imported@;
    let mut part = crate::recipes::cranelift_impl::cast_i64_as_u64::import();
    let ghost pv = part@;
    imported.append(&mut part);
    proof {
        lemma_entries_append(f0, k0, pv, crate::recipes::cranelift_impl::cast_i64_as_u64::table());
        known = k0 + crate::recipes::cranelift_impl::cast_i64_as_u64::table();
    }
    let ghost k0 = known;
    let ghost f0 = imported@;
    let mut part = crate::recipes::cranelift_impl::cast_u64_as_string::import();
    let ghost pv = part@;
    imported.append(&mut part);
    proof {
        lemma_entries_append(f0, k0, pv, crate::recipes::cranelift_impl::cast_u64_as_string::table());
        known = k0 + crate::recipes::cranelift_impl::cast_u64_as_string::table();
    }
    let ghost k0 = known;
    let ghost f0 = imported@;
    let mut part = crate::recipes::cranelift_impl::range1::import();
    let ghost pv = part@;
    imported.append(&mut part);
    proof {
        lemma_entries_append(f0, k0, pv, crate::recipes::cranelift_impl::range1::table());
        known = k0 + crate::recipes::cranelift_impl::range1::table();
    }
    let ghost k0 = known;
    let ghost f0 = imported@;
    let mut part = crate::recipes::cranelift_impl::range2::import();
    let ghost pv = part@;
    imported.append(&mut part);
    proof {
        lemma_entries_append(f0, k0, pv, crate::recipes::cranelift_impl::range2::table());
        known = k0 + crate::recipes::cranelift_impl::range2::table();
    }
    let ghost k0 = known;
    let ghost f0 = imported@;
    let mut part = crate::recipes::cranelift_impl::range3::import();
    let ghost pv = part@;
    imported.append(&mut part);
    proof {
        lemma_entries_append(f0, k0, pv, crate::recipes::cranelift_impl::range3::table());
        known = k0 + crate::recipes::cranelift_impl::range3::table();
    }
    let ghost k0 = known;
    let ghost f0 = imported@;
    let mut part = crate::recipes::cranelift_impl::std_println::import();
    let ghost pv = part@;
    imported.append(&mut part);
    proof {
        lemma_entries_append(f0, k0, pv, crate::recipes::cranelift_impl::std_println::table());
        known = k0 + crate::recipes::cranelift_impl::std_println::table();
    }
    let ghost k0 = known;
    let ghost f0 = imported@;
    let mut part = crate::recipes::cranelift_impl::string_join2::import();
    let ghost pv = part@;
    imported.append(&mut part);
    proof {
        lemma_entries_append(f0, k0, pv, crate::recipes::cranelift_impl::string_join2::table());
        known = k0 + crate::recipes::cranelift_impl::string_join2::table();
    }
    let ghost k0 = known;
    let ghost f0 = imported@;
    let mut part = crate::recipes::cranelift_impl::string_push::import();
    let ghost pv = part@;
    imported.append(&mut part);
    proof {
        lemma_entries_append(f0, k0, pv, crate::recipes::cranelift_impl::string_push::table());
        known = k0 + crate::recipes::cranelift_impl::string_push::table();
    }
    let ghost k0 = known;
    let ghost f0 = imported@;
    let mut part = crate::recipes::cranelift_impl::tuple_flatten::import();
    let ghost pv = part@;
    imported.append(&mut part);
    proof {
        lemma_entries_append(f0, k0, pv, crate::recipes::cranelift_impl::tuple_flatten::table());
        known = k0 + crate::recipes::cranelift_impl::tuple_flatten::table();
    }
    let ghost k0 = known;
    let ghost f0 = imported@;
    let mut part = crate::recipes::cranelift_impl::tuple_index::import();
    let ghost pv = part@;
    imported.append(&mut part);
    proof {
        lemma_entries_append(f0, k0, pv, crate::recipes::cranelift_impl::tuple_index::table());
        known = k0 + crate::recipes::cranelift_impl::tuple_index::table();
    }
    let ghost k0 = known;
    let ghost f0 = imported@;
    let mut part = crate::recipes::cranelift_impl::tuple_length::import();
    let ghost pv = part@;
    imported.append(&mut part);
    proof {
        lemma_entries_append(f0, k0, pv, crate::recipes::cranelift_impl::tuple_length::table());
        known = k0 + crate::recipes::cranelift_impl::tuple_length::table();
    }
    let ghost k0 = known;
    let ghost f0 = imported@;
    let mut part = crate::recipes::cranelift_impl::tuple_new::import();
    let ghost pv = part@;
    imported.append(&mut part);
    proof {
        lemma_entries_append(f0, k0, pv, crate::recipes::cranelift_impl::tuple_new::table());
        known = k0 + crate::recipes::cranelift_impl::tuple_new::table();
    }
    let ghost k0 = known;
    let ghost f0 = imported@;
    let mut part = crate::recipes::cranelift_impl::tuple_push::import();
    let ghost pv = part@;
    imported.append(&mut part);
    proof {
        lemma_entries_append(f0, k0, pv, crate::recipes::cranelift_impl::tuple_push::table());
        known = k0 + crate::recipes::cranelift_impl::tuple_push::table();
    }
    let ghost k0 = known;
    let ghost f0 = imported@;
    let mut part = crate::recipes::cranelift_impl::tuple_trim::import();
    let ghost pv = part@;
    imported.append(&mut part);
    proof {
        lemma_entries_append(f0, k0, pv, crate::recipes::cranelift_impl::tuple_trim::table());
        known = k0 + crate::recipes::cranelift_impl::tuple_trim::table();
    }
    assert(known =~= known_table());
    assert forall|i: int| 0 <= i < imported@.len() implies machine_type_of(Some(#[trigger] imported@[i].rname@)) == Some(imported@[i].rtype) by {
        assert(entry_is(imported@[i], known[i]));
    }
    imported
}

} // verus!
