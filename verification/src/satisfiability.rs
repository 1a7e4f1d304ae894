//! The satisfiability validator: proves that every field of the composed
//! schema that a query can reach has at least one resolution path through
//! the subgraphs.
//!
//! The model is a directed graph whose nodes are (type, subgraph) pairs. A
//! subgraph resolves a field directly when it declares it without
//! `@external`; a query executor positioned at type `T` in subgraph `A` may
//! jump to subgraph `B`'s declaration of `T` when `B` declares a `@key` on
//! `T` whose fields all exist in `A`'s declaration. A field is satisfiable
//! when, from every subgraph position that declares its type, some chain of
//! key jumps reaches a subgraph that resolves it directly. Only types
//! reachable from the query root through field and union-member edges are
//! checked. Reachability and the jump closure are defined by iterating the
//! one-step extension as many times as there are nodes, which fixes the
//! result exactly.

use vstd::prelude::*;
use vstd::string::StringExecFns;

use crate::error::CompositionError;
use crate::error::CompositionErrorView;
use crate::model::ObjectDef;
use crate::model::ObjectDefView;
use crate::model::SchemaDoc;
use crate::model::SchemaDocView;
use crate::model::TypeDef;
use crate::model::TypeDefView;
use crate::model::contains_name;
use crate::model::first_type_index;
use crate::model::vec_contains_name;
use crate::model::find_type;
use crate::model::FieldDef;
use crate::subgraph::field_names_of;
use crate::supergraph::Merged;
use crate::supergraph::RoutingSubgraph;
use crate::supergraph::RoutingSubgraphView;
use crate::supergraph::Satisfiable;
use crate::supergraph::Supergraph;
use crate::supergraph::seal_satisfiable;

verus! {

/// Views of the routing metadata entries.
pub open spec fn routing_vs(s: Seq<RoutingSubgraph>) -> Seq<RoutingSubgraphView> {
    s.map(|i: int, r: RoutingSubgraph| r@)
}

/// Whether the declaration `t` references the type named `n`: through a
/// field's base type, or as a union member.
pub open spec fn type_refs(t: TypeDefView, n: Seq<char>) -> bool {
    match t {
        TypeDefView::Object(o) => exists|i: int|
            0 <= i < o.fields.len() && (#[trigger] o.fields[i]).ty.base == n,
        TypeDefView::Union(u) => contains_name(u.members, n),
        TypeDefView::Enum(_) => false,
    }
}

/// Initially, only the query root type is reachable.
pub open spec fn reach_init(d: SchemaDocView) -> Seq<bool> {
    Seq::new(
        d.types.len(),
        |i: int|
            match d.query_root {
                Some(r) => d.types[i].name() == r,
                None => false,
            },
    )
}

/// One step: a type referenced by a reachable type becomes reachable.
pub open spec fn reach_step(d: SchemaDocView, flags: Seq<bool>) -> Seq<bool> {
    Seq::new(
        flags.len(),
        |i: int|
            flags[i] || exists|j: int|
                0 <= j < flags.len() && flags[j] && type_refs(
                    #[trigger] d.types[j],
                    d.types[i].name(),
                ),
    )
}

/// The reachability flags after `k` steps from the query root.
pub open spec fn reach_iter(d: SchemaDocView, k: nat) -> Seq<bool>
    decreases k,
{
    if k == 0 {
        reach_init(d)
    } else {
        reach_step(d, reach_iter(d, (k - 1) as nat))
    }
}

/// Which types of the merged schema a query can reach from the root:
/// the one-step extension iterated once per type.
pub open spec fn reachable_type_flags(d: SchemaDocView) -> Seq<bool> {
    reach_iter(d, d.types.len())
}

/// The object or interface declaration named `n`, if the first declaration
/// of that name is one.
pub open spec fn object_in(ts: Seq<TypeDefView>, n: Seq<char>) -> Option<ObjectDefView> {
    match first_type_index(ts, n) {
        Some(i) => match ts[i] {
            TypeDefView::Object(o) => Some(o),
            _ => None,
        },
        None => None,
    }
}

/// Whether subgraph `b` declares a `@key` on `tname` whose fields all
/// exist in subgraph `a`'s declaration: the executor may jump from `a`
/// to `b` on that type.
pub open spec fn can_jump(rv: Seq<RoutingSubgraphView>, tname: Seq<char>, a: int, b: int) -> bool {
    match (object_in(rv[a].schema.types, tname), object_in(rv[b].schema.types, tname)) {
        (Some(oa), Some(ob)) => exists|k: int|
            0 <= k < ob.keys.len() && key_usable_from(oa, #[trigger] ob.keys[k]),
        _ => false,
    }
}

/// Whether every field selected by `key` exists in `from`'s declaration.
pub open spec fn key_usable_from(from: ObjectDefView, key: Seq<Seq<char>>) -> bool {
    forall|i: int| 0 <= i < key.len() ==> contains_name(field_names_of(from.fields), #[trigger] key[i])
}

/// One step of the jump closure on type `tname`.
pub open spec fn jump_step(rv: Seq<RoutingSubgraphView>, tname: Seq<char>, flags: Seq<bool>) -> Seq<
    bool,
> {
    Seq::new(
        flags.len(),
        |b: int|
            flags[b] || exists|a: int|
                0 <= a < flags.len() && flags[a] && can_jump(rv, tname, a, b),
    )
}

/// The jump closure flags after `k` steps from position `a0`.
pub open spec fn jump_iter(rv: Seq<RoutingSubgraphView>, tname: Seq<char>, a0: int, k: nat) -> Seq<
    bool,
>
    decreases k,
{
    if k == 0 {
        Seq::new(rv.len(), |i: int| i == a0)
    } else {
        jump_step(rv, tname, jump_iter(rv, tname, a0, (k - 1) as nat))
    }
}

/// The subgraph positions on type `tname` that a query executor standing
/// in subgraph `a0` can reach by key jumps.
pub open spec fn jump_closure(rv: Seq<RoutingSubgraphView>, tname: Seq<char>, a0: int) -> Seq<
    bool,
> {
    jump_iter(rv, tname, a0, rv.len())
}

/// Whether the subgraph resolves `fname` on `tname` directly: it declares
/// the field and does not mark it `@external`.
pub open spec fn resolves_directly(
    r: RoutingSubgraphView,
    tname: Seq<char>,
    fname: Seq<char>,
) -> bool {
    match object_in(r.schema.types, tname) {
        Some(o) => exists|i: int|
            0 <= i < o.fields.len() && (#[trigger] o.fields[i]).name == fname && !o.fields[
                i
            ].external,
        None => false,
    }
}

/// Whether `fname` on `tname` can be resolved starting from subgraph
/// position `a0`: some position in the jump closure resolves it directly.
pub open spec fn field_resolvable_from(
    rv: Seq<RoutingSubgraphView>,
    tname: Seq<char>,
    fname: Seq<char>,
    a0: int,
) -> bool {
    exists|b: int|
        0 <= b < rv.len() && jump_closure(rv, tname, a0)[b] && resolves_directly(
            #[trigger] rv[b],
            tname,
            fname,
        )
}

/// Whether `fname` on `tname` is satisfiable from every subgraph position
/// that declares the type.
pub open spec fn field_sat(rv: Seq<RoutingSubgraphView>, tname: Seq<char>, fname: Seq<char>) -> bool {
    forall|a: int|
        0 <= a < rv.len() && object_in((#[trigger] rv[a]).schema.types, tname) is Some
            ==> field_resolvable_from(rv, tname, fname, a)
}

/// Whether every field of the object is satisfiable.
pub open spec fn obj_sat(rv: Seq<RoutingSubgraphView>, o: ObjectDefView) -> bool {
    forall|f: int| 0 <= f < o.fields.len() ==> field_sat(rv, o.name, (#[trigger] o.fields[f]).name)
}

/// Whether the type at position `ti` of the merged schema is satisfiable:
/// only reachable object and interface types are checked.
pub open spec fn type_sat(d: SchemaDocView, rv: Seq<RoutingSubgraphView>, ti: int) -> bool {
    (reachable_type_flags(d)[ti] && d.types[ti] is Object) ==> obj_sat(rv, d.types[ti]->Object_0)
}

/// Whether every field of the merged schema that a query can reach has a
/// resolution path through the subgraphs.
pub open spec fn sat_ok(d: SchemaDocView, rv: Seq<RoutingSubgraphView>) -> bool {
    forall|ti: int| 0 <= ti < d.types.len() ==> type_sat(d, rv, ti)
}

// ------------------------------------------------------------------
// `@requires` acyclicity: resolving a field may first require other
// fields of the same type, and those dependencies must not form a cycle.
// ------------------------------------------------------------------
/// Whether, in some subgraph's declaration of `tname`, the field named
/// `f` declares `@requires` on the field named `g`.
pub open spec fn requires_edge(
    rv: Seq<RoutingSubgraphView>,
    tname: Seq<char>,
    f: Seq<char>,
    g: Seq<char>,
) -> bool {
    exists|a: int|
        0 <= a < rv.len() && (object_in((#[trigger] rv[a]).schema.types, tname) matches Some(o)
            && exists|i: int|
            0 <= i < o.fields.len() && (#[trigger] o.fields[i]).name == f && (o.fields[i].requires
                matches Some(rq) && contains_name(rq, g)))
}

/// One step of the dependency closure from one field of the merged type:
/// a field required by a reached field is reached.
pub open spec fn req_step(
    rv: Seq<RoutingSubgraphView>,
    tname: Seq<char>,
    fnames: Seq<Seq<char>>,
    flags: Seq<bool>,
) -> Seq<bool> {
    Seq::new(
        flags.len(),
        |j: int|
            flags[j] || exists|i: int|
                0 <= i < flags.len() && flags[i] && requires_edge(
                    rv,
                    tname,
                    #[trigger] fnames[i],
                    fnames[j],
                ),
    )
}

/// The dependency closure flags after `k` steps from field `f0`.
pub open spec fn req_iter(
    rv: Seq<RoutingSubgraphView>,
    tname: Seq<char>,
    fnames: Seq<Seq<char>>,
    f0: int,
    k: nat,
) -> Seq<bool>
    decreases k,
{
    if k == 0 {
        Seq::new(fnames.len(), |j: int| requires_edge(rv, tname, fnames[f0], fnames[j]))
    } else {
        req_step(rv, tname, fnames, req_iter(rv, tname, fnames, f0, (k - 1) as nat))
    }
}

/// Whether the field at position `f0` of the merged type depends on
/// itself through a chain of `@requires` edges.
pub open spec fn requires_cycle_at(
    rv: Seq<RoutingSubgraphView>,
    tname: Seq<char>,
    fnames: Seq<Seq<char>>,
    f0: int,
) -> bool {
    req_iter(rv, tname, fnames, f0, fnames.len())[f0]
}

/// Whether the reachable type at position `ti` is free of `@requires`
/// cycles among its fields.
pub open spec fn type_req_ok(d: SchemaDocView, rv: Seq<RoutingSubgraphView>, ti: int) -> bool {
    (reachable_type_flags(d)[ti] && d.types[ti] is Object) ==> (forall|f: int|
        0 <= f < d.types[ti]->Object_0.fields.len() ==> !requires_cycle_at(
            rv,
            d.types[ti]->Object_0.name,
            field_names_of(d.types[ti]->Object_0.fields),
            f,
        ))
}

/// Whether no reachable type carries a cyclic `@requires` dependency.
pub open spec fn req_ok(d: SchemaDocView, rv: Seq<RoutingSubgraphView>) -> bool {
    forall|ti: int| 0 <= ti < d.types.len() ==> type_req_ok(d, rv, ti)
}

/// Whether the fields hold one named `n`.
fn contains_field_name(fields: &Vec<FieldDef>, n: &String) -> (r: bool)
    ensures
        r == contains_name(field_names_of(fields@.map(|i: int, f: FieldDef| f@)), n@),
{
    let ghost fns = field_names_of(fields@.map(|i: int, f: FieldDef| f@));
    let mut ix: usize = 0;
    while ix < fields.len()
        invariant
            0 <= ix <= fields.len(),
            fns == field_names_of(fields@.map(|i: int, f: FieldDef| f@)),
            fns.len() == fields@.len(),
            forall|i: int| 0 <= i < ix ==> fns[i] != n@,
        decreases fields.len() - ix,
    {
        if fields[ix].name == *n {
            assert(fns[ix as int] == n@);
            return true;
        }
        ix += 1;
    }
    false
}

/// Whether the declaration references the type named `n`.
fn type_refs_exec(t: &TypeDef, n: &String) -> (r: bool)
    ensures
        r == type_refs(t@, n@),
{
    match t {
        TypeDef::Object(o) => {
            let ghost ov = o@;
            let mut ix: usize = 0;
            while ix < o.fields.len()
                invariant
                    0 <= ix <= o.fields.len(),
                    ov == o@,
                    t@ == TypeDefView::Object(ov),
                    ov.fields.len() == o.fields@.len(),
                    forall|i: int| 0 <= i < ix ==> (#[trigger] ov.fields[i]).ty.base != n@,
                decreases o.fields.len() - ix,
            {
                if o.fields[ix].ty.base == *n {
                    assert(ov.fields[ix as int].ty.base == n@);
                    return true;
                }
                ix += 1;
            }
            false
        },
        TypeDef::Union(u) => crate::model::vec_contains_name(&u.members, n),
        TypeDef::Enum(_) => false,
    }
}

/// One step of merged-schema reachability.
fn reach_step_exec(schema: &SchemaDoc, flags: &Vec<bool>) -> (r: Vec<bool>)
    requires
        flags@.len() == schema@.types.len(),
    ensures
        r@ == reach_step(schema@, flags@),
{
    let ghost dv = schema@;
    let ghost target = reach_step(dv, flags@);
    let n = schema.types.len();
    let mut out: Vec<bool> = Vec::new();
    proof {
        assert(out@ =~= target.subrange(0, 0));
    }
    let mut ix: usize = 0;
    while ix < n
        invariant
            0 <= ix <= n,
            n == schema.types@.len(),
            dv == schema@,
            flags@.len() == dv.types.len(),
            target == reach_step(dv, flags@),
            target.len() == flags@.len(),
            out@ =~= target.subrange(0, ix as int),
        decreases n - ix,
    {
        let mut bit = flags[ix];
        let tn = schema.types[ix].name();
        let ghost tnv = dv.types[ix as int].name();
        assert(tn@ == tnv);
        let mut j: usize = 0;
        while j < n && !bit
            invariant
                0 <= j <= n,
                n == schema.types@.len(),
                dv == schema@,
                flags@.len() == dv.types.len(),
                tn@ == tnv,
                bit ==> (flags@[ix as int] || exists|k: int|
                    0 <= k < flags@.len() && flags@[k] && type_refs(#[trigger] dv.types[k], tnv)),
                !bit ==> !flags@[ix as int] && forall|k: int|
                    0 <= k < j ==> !(flags@[k] && type_refs(#[trigger] dv.types[k], tnv)),
            decreases n - j,
        {
            if flags[j] && type_refs_exec(&schema.types[j], tn) {
                assert(flags@[j as int] && type_refs(dv.types[j as int], tnv));
                bit = true;
            }
            j += 1;
        }
        proof {
            assert(target[ix as int] == (flags@[ix as int] || exists|k: int|
                0 <= k < flags@.len() && flags@[k] && type_refs(
                    #[trigger] dv.types[k],
                    dv.types[ix as int].name(),
                )));
        }
        out.push(bit);
        proof {
            assert(out@ =~= target.subrange(0, (ix + 1) as int));
        }
        ix += 1;
    }
    proof {
        assert(target.subrange(0, target.len() as int) =~= target);
    }
    out
}

/// The reachability flags of the merged schema.
fn reach_flags_exec(schema: &SchemaDoc) -> (r: Vec<bool>)
    ensures
        r@ == reachable_type_flags(schema@),
{
    let ghost dv = schema@;
    let n = schema.types.len();
    let mut cur: Vec<bool> = Vec::new();
    proof {
        assert(cur@ =~= reach_init(dv).subrange(0, 0));
    }
    let mut ix: usize = 0;
    while ix < n
        invariant
            0 <= ix <= n,
            n == schema.types@.len(),
            dv == schema@,
            cur@ =~= reach_init(dv).subrange(0, ix as int),
        decreases n - ix,
    {
        let bit = match &schema.query_root {
            Some(rt) => *schema.types[ix].name() == *rt,
            None => false,
        };
        assert(bit == reach_init(dv)[ix as int]);
        cur.push(bit);
        proof {
            assert(cur@ =~= reach_init(dv).subrange(0, (ix + 1) as int));
        }
        ix += 1;
    }
    proof {
        assert(reach_init(dv).subrange(0, reach_init(dv).len() as int) =~= reach_init(dv));
        assert(cur@ == reach_iter(dv, 0));
    }
    let mut k: usize = 0;
    while k < n
        invariant
            0 <= k <= n,
            n == schema.types@.len(),
            dv == schema@,
            cur@ == reach_iter(dv, k as nat),
            cur@.len() == dv.types.len(),
        decreases n - k,
    {
        cur = reach_step_exec(schema, &cur);
        k += 1;
    }
    cur
}

/// The object or interface declaration named `n`, if the first
/// declaration of that name is one.
fn find_object_exec<'a>(types: &'a Vec<TypeDef>, n: &String) -> (r: Option<&'a ObjectDef>)
    ensures
        match r {
            Some(o) => object_in(types@.map(|i: int, t: TypeDef| t@), n@) == Some(o@),
            None => object_in(types@.map(|i: int, t: TypeDef| t@), n@) is None,
        },
{
    let found = find_type(types, n);
    match found {
        Some(t) => match t {
            TypeDef::Object(o) => Some(o),
            _ => None,
        },
        None => None,
    }
}

/// Whether the executor may jump from position `a` to position `b` on
/// type `tname`.
fn can_jump_exec(routing: &Vec<RoutingSubgraph>, tname: &String, a: usize, b: usize) -> (r: bool)
    requires
        a < routing@.len(),
        b < routing@.len(),
    ensures
        r == can_jump(routing_vs(routing@), tname@, a as int, b as int),
{
    let ghost rv = routing_vs(routing@);
    assert(rv[a as int] == routing@[a as int]@ && rv[b as int] == routing@[b as int]@);
    let oa = find_object_exec(&routing[a].schema.types, tname);
    let ob = find_object_exec(&routing[b].schema.types, tname);
    match (oa, ob) {
        (Some(oa), Some(ob)) => {
            let ghost oav = oa@;
            let ghost obv = ob@;
            let mut kx: usize = 0;
            while kx < ob.keys.len()
                invariant
                    0 <= kx <= ob.keys.len(),
                    oav == oa@,
                    obv == ob@,
                    a < routing@.len(),
                    b < routing@.len(),
                    rv == routing_vs(routing@),
                    rv[a as int] == routing@[a as int]@,
                    rv[b as int] == routing@[b as int]@,
                    object_in(rv[a as int].schema.types, tname@) == Some(oav),
                    object_in(rv[b as int].schema.types, tname@) == Some(obv),
                    obv.keys.len() == ob.keys@.len(),
                    forall|k: int| 0 <= k < kx ==> !key_usable_from(oav, #[trigger] obv.keys[k]),
                decreases ob.keys.len() - kx,
            {
                let key = &ob.keys[kx];
                let ghost kv = key@;
                assert(kv == obv.keys[kx as int]);
                let mut fx: usize = 0;
                let mut usable = true;
                while fx < key.fields.len() && usable
                    invariant
                        0 <= fx <= key.fields.len(),
                        oav == oa@,
                        kv == key@,
                        kv.len() == key.fields@.len(),
                        usable ==> forall|i: int|
                            0 <= i < fx ==> contains_name(
                                field_names_of(oav.fields),
                                #[trigger] kv[i],
                            ),
                        !usable ==> !key_usable_from(oav, kv),
                    decreases key.fields.len() - fx,
                {
                    if !contains_field_name(&oa.fields, &key.fields[fx]) {
                        assert(!contains_name(field_names_of(oav.fields), kv[fx as int]));
                        usable = false;
                    }
                    fx += 1;
                }
                if usable {
                    assert(key_usable_from(oav, obv.keys[kx as int]));
                    return true;
                }
                kx += 1;
            }
            false
        },
        _ => false,
    }
}

/// One step of the jump closure on type `tname`.
fn jump_step_exec(routing: &Vec<RoutingSubgraph>, tname: &String, flags: &Vec<bool>) -> (r: Vec<
    bool,
>)
    requires
        flags@.len() == routing@.len(),
    ensures
        r@ == jump_step(routing_vs(routing@), tname@, flags@),
{
    let ghost rv = routing_vs(routing@);
    let ghost target = jump_step(rv, tname@, flags@);
    let n = routing.len();
    let mut out: Vec<bool> = Vec::new();
    proof {
        assert(out@ =~= target.subrange(0, 0));
    }
    let mut bx: usize = 0;
    while bx < n
        invariant
            0 <= bx <= n,
            n == routing@.len(),
            rv == routing_vs(routing@),
            flags@.len() == n,
            target == jump_step(rv, tname@, flags@),
            target.len() == n,
            out@ =~= target.subrange(0, bx as int),
        decreases n - bx,
    {
        let mut bit = flags[bx];
        let mut ax: usize = 0;
        while ax < n && !bit
            invariant
                0 <= ax <= n,
                n == routing@.len(),
                rv == routing_vs(routing@),
                flags@.len() == n,
                bx < n,
                bit ==> (flags@[bx as int] || exists|a: int|
                    0 <= a < n && flags@[a] && can_jump(rv, tname@, a, bx as int)),
                !bit ==> !flags@[bx as int] && forall|a: int|
                    0 <= a < ax ==> !(flags@[a] && can_jump(rv, tname@, a, bx as int)),
            decreases n - ax,
        {
            if flags[ax] && can_jump_exec(routing, tname, ax, bx) {
                bit = true;
            }
            ax += 1;
        }
        proof {
            assert(target[bx as int] == (flags@[bx as int] || exists|a: int|
                0 <= a < flags@.len() && flags@[a] && can_jump(rv, tname@, a, bx as int)));
        }
        out.push(bit);
        proof {
            assert(out@ =~= target.subrange(0, (bx + 1) as int));
        }
        bx += 1;
    }
    proof {
        assert(target.subrange(0, target.len() as int) =~= target);
    }
    out
}

/// The jump closure from position `a0` on type `tname`.
fn jump_closure_exec(routing: &Vec<RoutingSubgraph>, tname: &String, a0: usize) -> (r: Vec<bool>)
    requires
        a0 < routing@.len(),
    ensures
        r@ == jump_closure(routing_vs(routing@), tname@, a0 as int),
        r@.len() == routing@.len(),
{
    let ghost rv = routing_vs(routing@);
    let n = routing.len();
    let mut cur: Vec<bool> = Vec::new();
    proof {
        assert(cur@ =~= jump_iter(rv, tname@, a0 as int, 0).subrange(0, 0));
    }
    let mut ix: usize = 0;
    while ix < n
        invariant
            0 <= ix <= n,
            n == routing@.len(),
            rv == routing_vs(routing@),
            cur@ =~= jump_iter(rv, tname@, a0 as int, 0).subrange(0, ix as int),
        decreases n - ix,
    {
        let bit = ix == a0;
        assert(bit == jump_iter(rv, tname@, a0 as int, 0)[ix as int]);
        cur.push(bit);
        proof {
            assert(cur@ =~= jump_iter(rv, tname@, a0 as int, 0).subrange(0, (ix + 1) as int));
        }
        ix += 1;
    }
    proof {
        let base = jump_iter(rv, tname@, a0 as int, 0);
        assert(base.subrange(0, base.len() as int) =~= base);
    }
    let mut k: usize = 0;
    while k < n
        invariant
            0 <= k <= n,
            n == routing@.len(),
            rv == routing_vs(routing@),
            cur@ == jump_iter(rv, tname@, a0 as int, k as nat),
            cur@.len() == n,
        decreases n - k,
    {
        cur = jump_step_exec(routing, tname, &cur);
        k += 1;
    }
    cur
}

/// Whether the subgraph resolves `fname` on `tname` directly.
fn resolves_directly_exec(r: &RoutingSubgraph, tname: &String, fname: &String) -> (res: bool)
    ensures
        res == resolves_directly(r@, tname@, fname@),
{
    let found = find_object_exec(&r.schema.types, tname);
    match found {
        Some(o) => {
            let ghost ov = o@;
            let mut ix: usize = 0;
            while ix < o.fields.len()
                invariant
                    0 <= ix <= o.fields.len(),
                    ov == o@,
                    object_in(r@.schema.types, tname@) == Some(ov),
                    ov.fields.len() == o.fields@.len(),
                    forall|i: int|
                        0 <= i < ix ==> !((#[trigger] ov.fields[i]).name == fname@ && !ov.fields[
                            i
                        ].external),
                decreases o.fields.len() - ix,
            {
                if o.fields[ix].name == *fname && !o.fields[ix].external {
                    assert(ov.fields[ix as int].name == fname@ && !ov.fields[ix as int].external);
                    return true;
                }
                ix += 1;
            }
            false
        },
        None => false,
    }
}

/// Whether `fname` on `tname` can be resolved starting from position `a0`.
fn field_resolvable_from_exec(
    routing: &Vec<RoutingSubgraph>,
    tname: &String,
    fname: &String,
    a0: usize,
) -> (r: bool)
    requires
        a0 < routing@.len(),
    ensures
        r == field_resolvable_from(routing_vs(routing@), tname@, fname@, a0 as int),
{
    let ghost rv = routing_vs(routing@);
    let closure = jump_closure_exec(routing, tname, a0);
    assert(closure@.len() == rv.len());
    let mut bx: usize = 0;
    while bx < routing.len()
        invariant
            0 <= bx <= routing@.len(),
            rv == routing_vs(routing@),
            rv.len() == routing@.len(),
            closure@ == jump_closure(rv, tname@, a0 as int),
            closure@.len() == rv.len(),
            forall|b: int|
                0 <= b < bx ==> !(closure@[b] && resolves_directly(
                    #[trigger] rv[b],
                    tname@,
                    fname@,
                )),
        decreases routing@.len() - bx,
    {
        if closure[bx] && resolves_directly_exec(&routing[bx], tname, fname) {
            assert(closure@[bx as int] && resolves_directly(rv[bx as int], tname@, fname@));
            return true;
        }
        bx += 1;
    }
    false
}

/// Whether some subgraph's declaration of `tname` gives field `f` a
/// `@requires` on field `g`.
fn requires_edge_exec(
    routing: &Vec<RoutingSubgraph>,
    tname: &String,
    f: &String,
    g: &String,
) -> (r: bool)
    ensures
        r == requires_edge(routing_vs(routing@), tname@, f@, g@),
{
    let ghost rv = routing_vs(routing@);
    let mut a: usize = 0;
    while a < routing.len()
        invariant
            0 <= a <= routing@.len(),
            rv == routing_vs(routing@),
            rv.len() == routing@.len(),
            forall|x: int|
                0 <= x < a ==> !(object_in((#[trigger] rv[x]).schema.types, tname@) matches Some(
                    o,
                ) && exists|i: int|
                    0 <= i < o.fields.len() && (#[trigger] o.fields[i]).name == f@ && (o.fields[
                        i
                    ].requires matches Some(rq) && contains_name(rq, g@))),
        decreases routing@.len() - a,
    {
        assert(rv[a as int] == routing@[a as int]@);
        let found = find_object_exec(&routing[a].schema.types, tname);
        match found {
            Some(o) => {
                let ghost ov = o@;
                let mut ix: usize = 0;
                let mut hit = false;
                while ix < o.fields.len() && !hit
                    invariant
                        0 <= ix <= o.fields.len(),
                        ov == o@,
                        ov.fields.len() == o.fields@.len(),
                        hit ==> exists|i: int|
                            0 <= i < ov.fields.len() && (#[trigger] ov.fields[i]).name == f@ && (
                            ov.fields[i].requires matches Some(rq) && contains_name(rq, g@)),
                        !hit ==> forall|i: int|
                            0 <= i < ix ==> !((#[trigger] ov.fields[i]).name == f@ && (ov.fields[
                                i
                            ].requires matches Some(rq) && contains_name(rq, g@))),
                    decreases o.fields.len() - ix,
                {
                    if o.fields[ix].name == *f {
                        if let Some(rq) = &o.fields[ix].requires {
                            if vec_contains_name(&rq.fields, g) {
                                assert(ov.fields[ix as int].name == f@ && (ov.fields[
                                    ix as int].requires matches Some(rqv) && contains_name(
                                    rqv,
                                    g@,
                                )));
                                hit = true;
                            }
                        }
                    }
                    ix += 1;
                }
                if hit {
                    assert(object_in(rv[a as int].schema.types, tname@) == Some(ov));
                    return true;
                }
            },
            None => {},
        }
        a += 1;
    }
    false
}

/// One step of the `@requires` dependency closure.
fn req_step_exec(
    routing: &Vec<RoutingSubgraph>,
    tname: &String,
    fnames: &Vec<String>,
    flags: &Vec<bool>,
) -> (r: Vec<bool>)
    requires
        flags@.len() == fnames@.len(),
    ensures
        r@ == req_step(routing_vs(routing@), tname@, crate::model::names_view(fnames@), flags@),
{
    let ghost rv = routing_vs(routing@);
    let ghost fnv = crate::model::names_view(fnames@);
    let ghost target = req_step(rv, tname@, fnv, flags@);
    let n = fnames.len();
    let mut out: Vec<bool> = Vec::new();
    proof {
        assert(out@ =~= target.subrange(0, 0));
    }
    let mut jx: usize = 0;
    while jx < n
        invariant
            0 <= jx <= n,
            n == fnames@.len(),
            rv == routing_vs(routing@),
            fnv == crate::model::names_view(fnames@),
            fnv.len() == n,
            flags@.len() == n,
            target == req_step(rv, tname@, fnv, flags@),
            target.len() == n,
            out@ =~= target.subrange(0, jx as int),
        decreases n - jx,
    {
        let mut bit = flags[jx];
        let mut ixx: usize = 0;
        while ixx < n && !bit
            invariant
                0 <= ixx <= n,
                n == fnames@.len(),
                rv == routing_vs(routing@),
                fnv == crate::model::names_view(fnames@),
                fnv.len() == n,
                flags@.len() == n,
                jx < n,
                bit ==> (flags@[jx as int] || exists|i: int|
                    0 <= i < n && flags@[i] && requires_edge(
                        rv,
                        tname@,
                        #[trigger] fnv[i],
                        fnv[jx as int],
                    )),
                !bit ==> !flags@[jx as int] && forall|i: int|
                    0 <= i < ixx ==> !(flags@[i] && requires_edge(
                        rv,
                        tname@,
                        #[trigger] fnv[i],
                        fnv[jx as int],
                    )),
            decreases n - ixx,
        {
            if flags[ixx] && requires_edge_exec(routing, tname, &fnames[ixx], &fnames[jx]) {
                assert(fnv[ixx as int] == fnames@[ixx as int]@);
                bit = true;
            }
            ixx += 1;
        }
        proof {
            assert(target[jx as int] == (flags@[jx as int] || exists|i: int|
                0 <= i < flags@.len() && flags@[i] && requires_edge(
                    rv,
                    tname@,
                    #[trigger] fnv[i],
                    fnv[jx as int],
                )));
        }
        out.push(bit);
        proof {
            assert(out@ =~= target.subrange(0, (jx + 1) as int));
        }
        jx += 1;
    }
    proof {
        assert(target.subrange(0, target.len() as int) =~= target);
    }
    out
}

/// Whether the field at position `f0` depends on itself through
/// `@requires` edges.
fn requires_cycle_exec(
    routing: &Vec<RoutingSubgraph>,
    tname: &String,
    fnames: &Vec<String>,
    f0: usize,
) -> (r: bool)
    requires
        f0 < fnames@.len(),
    ensures
        r == requires_cycle_at(
            routing_vs(routing@),
            tname@,
            crate::model::names_view(fnames@),
            f0 as int,
        ),
{
    let ghost rv = routing_vs(routing@);
    let ghost fnv = crate::model::names_view(fnames@);
    let n = fnames.len();
    let mut cur: Vec<bool> = Vec::new();
    proof {
        assert(cur@ =~= req_iter(rv, tname@, fnv, f0 as int, 0).subrange(0, 0));
    }
    let mut jx: usize = 0;
    while jx < n
        invariant
            0 <= jx <= n,
            n == fnames@.len(),
            rv == routing_vs(routing@),
            fnv == crate::model::names_view(fnames@),
            fnv.len() == n,
            f0 < n,
            cur@ =~= req_iter(rv, tname@, fnv, f0 as int, 0).subrange(0, jx as int),
        decreases n - jx,
    {
        let bit = requires_edge_exec(routing, tname, &fnames[f0], &fnames[jx]);
        assert(bit == req_iter(rv, tname@, fnv, f0 as int, 0)[jx as int]);
        cur.push(bit);
        proof {
            assert(cur@ =~= req_iter(rv, tname@, fnv, f0 as int, 0).subrange(0, (jx + 1) as int));
        }
        jx += 1;
    }
    proof {
        let base = req_iter(rv, tname@, fnv, f0 as int, 0);
        assert(base.subrange(0, base.len() as int) =~= base);
    }
    let mut k: usize = 0;
    while k < n
        invariant
            0 <= k <= n,
            n == fnames@.len(),
            rv == routing_vs(routing@),
            fnv == crate::model::names_view(fnames@),
            fnv.len() == n,
            f0 < n,
            cur@ == req_iter(rv, tname@, fnv, f0 as int, k as nat),
            cur@.len() == n,
        decreases n - k,
    {
        cur = req_step_exec(routing, tname, fnames, &cur);
        k += 1;
    }
    cur[f0]
}

/// The satisfiability errors of the composed schema: one per unreachable
/// (type, field, subgraph-position) combination, then one per field caught
/// in a `@requires` cycle, in declaration order. The list is empty exactly
/// when every reachable field is satisfiable and no reachable type has a
/// cyclic `@requires` dependency.
fn collect_sat_errors(schema: &SchemaDoc, routing: &Vec<RoutingSubgraph>) -> (es: Vec<
    CompositionError,
>)
    ensures
        es@.len() == 0 <==> (sat_ok(schema@, routing_vs(routing@)) && req_ok(
            schema@,
            routing_vs(routing@),
        )),
        forall|i: int| 0 <= i < es@.len() ==> (#[trigger] es@[i]@) is SatisfiabilityError,
{
    let ghost dv = schema@;
    let ghost rv = routing_vs(routing@);
    let flags = reach_flags_exec(schema);
    assert(flags@.len() == dv.types.len()) by {
        assert(reach_init(dv).len() == dv.types.len());
        lemma_reach_iter_len(dv, dv.types.len());
    }
    let mut es: Vec<CompositionError> = Vec::new();
    let mut ti: usize = 0;
    while ti < schema.types.len()
        invariant
            0 <= ti <= schema.types@.len(),
            dv == schema@,
            rv == routing_vs(routing@),
            rv.len() == routing@.len(),
            flags@ == reachable_type_flags(dv),
            flags@.len() == dv.types.len(),
            (es@.len() == 0) <==> (forall|t: int| 0 <= t < ti ==> type_sat(dv, rv, t)),
            forall|i: int| 0 <= i < es@.len() ==> (#[trigger] es@[i]@) is SatisfiabilityError,
        decreases schema.types@.len() - ti,
    {
        let reachable = flags[ti];
        let t = &schema.types[ti];
        assert(t@ == dv.types[ti as int]);
        if reachable {
            if let TypeDef::Object(o) = t {
                let ghost ov = o@;
                assert(dv.types[ti as int] == TypeDefView::Object(ov));
                let ghost was_ok_t = es@.len() == 0;
                let mut fi: usize = 0;
                while fi < o.fields.len()
                    invariant
                        0 <= fi <= o.fields@.len(),
                        dv == schema@,
                        rv == routing_vs(routing@),
                        rv.len() == routing@.len(),
                        ov == o@,
                        ti < dv.types.len(),
                        dv.types[ti as int] == TypeDefView::Object(ov),
                        ov.fields.len() == o.fields@.len(),
                        (es@.len() == 0) <==> (was_ok_t && forall|f: int|
                            0 <= f < fi ==> field_sat(rv, ov.name, (#[trigger] ov.fields[f]).name)),
                        forall|i: int|
                            0 <= i < es@.len() ==> (#[trigger] es@[i]@) is SatisfiabilityError,
                    decreases o.fields@.len() - fi,
                {
                    let fld = &o.fields[fi];
                    assert(fld@ == ov.fields[fi as int]);
                    let ghost was_ok_f = es@.len() == 0;
                    let mut a: usize = 0;
                    while a < routing.len()
                        invariant
                            0 <= a <= routing@.len(),
                            dv == schema@,
                            rv == routing_vs(routing@),
                            rv.len() == routing@.len(),
                            ov == o@,
                            fi < ov.fields.len(),
                            fld@ == ov.fields[fi as int],
                            (es@.len() == 0) <==> (was_ok_f && forall|x: int|
                                0 <= x < a ==> (object_in(
                                    (#[trigger] rv[x]).schema.types,
                                    ov.name,
                                ) is Some ==> field_resolvable_from(rv, ov.name, fld@.name, x))),
                            forall|i: int|
                                0 <= i < es@.len() ==> (#[trigger] es@[i]@)
                                    is SatisfiabilityError,
                        decreases routing@.len() - a,
                    {
                        assert(rv[a as int] == routing@[a as int]@);
                        let declared = find_object_exec(&routing[a].schema.types, &o.name);
                        let mut failed = false;
                        if let Some(u) = declared {
                            if !field_resolvable_from_exec(routing, &o.name, &fld.name, a) {
                                failed = true;
                            }
                        }
                        if failed {
                            let message = String::from_str("Field ").concat(
                                o.name.as_str(),
                            ).concat(".").concat(fld.name.as_str()).concat(
                                " is not resolvable from subgraph ",
                            ).concat(routing[a].name.as_str());
                            let ghost prev = es@;
                            es.push(CompositionError::SatisfiabilityError { message });
                            proof {
                                assert(es@ == prev.push(es@.last()));
                                assert(object_in(rv[a as int].schema.types, ov.name) is Some
                                    && !field_resolvable_from(rv, ov.name, fld@.name, a as int));
                                assert forall|i: int|
                                    0 <= i < es@.len() implies (#[trigger] es@[i]@)
                                        is SatisfiabilityError by {
                                    if i < prev.len() {
                                        assert(es@[i] == prev[i]);
                                    }
                                }
                            }
                        }
                        a += 1;
                    }
                    proof {
                        assert((was_ok_f && forall|x: int|
                            0 <= x < rv.len() ==> (object_in(
                                (#[trigger] rv[x]).schema.types,
                                ov.name,
                            ) is Some ==> field_resolvable_from(rv, ov.name, fld@.name, x)))
                            == (was_ok_f && field_sat(rv, ov.name, ov.fields[fi as int].name)));
                    }
                    fi += 1;
                }
                proof {
                    assert((es@.len() == 0) <==> (was_ok_t && obj_sat(rv, ov)));
                    assert(type_sat(dv, rv, ti as int) == obj_sat(rv, ov));
                }
            } else {
                assert(type_sat(dv, rv, ti as int));
            }
        } else {
            proof {
                assert(!reachable_type_flags(dv)[ti as int]);
                assert(type_sat(dv, rv, ti as int));
            }
        }
        ti += 1;
    }
    assert((es@.len() == 0) <==> sat_ok(dv, rv));
    // Second pass: `@requires` dependencies of reachable types must not
    // form a cycle.
    let mut ti: usize = 0;
    while ti < schema.types.len()
        invariant
            0 <= ti <= schema.types@.len(),
            dv == schema@,
            rv == routing_vs(routing@),
            rv.len() == routing@.len(),
            flags@ == reachable_type_flags(dv),
            flags@.len() == dv.types.len(),
            (es@.len() == 0) <==> (sat_ok(dv, rv) && forall|t: int|
                0 <= t < ti ==> type_req_ok(dv, rv, t)),
            forall|i: int| 0 <= i < es@.len() ==> (#[trigger] es@[i]@) is SatisfiabilityError,
        decreases schema.types@.len() - ti,
    {
        let reachable = flags[ti];
        let t = &schema.types[ti];
        assert(t@ == dv.types[ti as int]);
        if reachable {
            if let TypeDef::Object(o) = t {
                let ghost ov = o@;
                assert(dv.types[ti as int] == TypeDefView::Object(ov));
                let fnames = crate::subgraph::field_name_vec(&o.fields);
                let ghost fnv = crate::model::names_view(fnames@);
                proof {
                    assert(fnv == field_names_of(ov.fields));
                    assert(fnv.len() == ov.fields.len());
                }
                let ghost was_ok_t = es@.len() == 0;
                let mut fi: usize = 0;
                while fi < fnames.len()
                    invariant
                        0 <= fi <= fnames@.len(),
                        dv == schema@,
                        rv == routing_vs(routing@),
                        rv.len() == routing@.len(),
                        ov == o@,
                        ti < dv.types.len(),
                        dv.types[ti as int] == TypeDefView::Object(ov),
                        fnv == crate::model::names_view(fnames@),
                        fnv == field_names_of(ov.fields),
                        fnv.len() == fnames@.len(),
                        (es@.len() == 0) <==> (was_ok_t && forall|f: int|
                            0 <= f < fi ==> !requires_cycle_at(rv, ov.name, fnv, f)),
                        forall|i: int|
                            0 <= i < es@.len() ==> (#[trigger] es@[i]@) is SatisfiabilityError,
                    decreases fnames@.len() - fi,
                {
                    let ghost was_empty = es@.len() == 0;
                    let cyclic = requires_cycle_exec(routing, &o.name, &fnames, fi);
                    proof {
                        if cyclic {
                            assert(requires_cycle_at(rv, ov.name, fnv, fi as int));
                            assert(!(forall|f: int|
                                0 <= f < fi + 1 ==> !requires_cycle_at(rv, ov.name, fnv, f)));
                        } else if was_empty {
                            assert forall|f: int|
                                0 <= f < fi + 1 implies !requires_cycle_at(
                                rv,
                                ov.name,
                                fnv,
                                f,
                            ) by {
                                if f < fi {
                                } else {
                                    assert(!requires_cycle_at(rv, ov.name, fnv, fi as int));
                                }
                            }
                        }
                    }
                    if cyclic {
                        let message = String::from_str("Cyclic @requires dependency on type ")
                            .concat(o.name.as_str()).concat(" involving field ").concat(
                            fnames[fi].as_str(),
                        );
                        let ghost prev = es@;
                        es.push(CompositionError::SatisfiabilityError { message });
                        proof {
                            assert(es@ == prev.push(es@.last()));
                            assert forall|i: int|
                                0 <= i < es@.len() implies (#[trigger] es@[i]@)
                                    is SatisfiabilityError by {
                                if i < prev.len() {
                                    assert(es@[i] == prev[i]);
                                }
                            }
                        }
                    }
                    fi += 1;
                }
                proof {
                    assert((es@.len() == 0) <==> (was_ok_t && forall|f: int|
                        0 <= f < fnv.len() ==> !requires_cycle_at(rv, ov.name, fnv, f)));
                    assert(type_req_ok(dv, rv, ti as int) == (forall|f: int|
                        0 <= f < ov.fields.len() ==> !requires_cycle_at(
                            rv,
                            ov.name,
                            field_names_of(ov.fields),
                            f,
                        )));
                }
            } else {
                assert(type_req_ok(dv, rv, ti as int));
            }
        } else {
            proof {
                assert(!reachable_type_flags(dv)[ti as int]);
                assert(type_req_ok(dv, rv, ti as int));
            }
        }
        ti += 1;
    }
    es
}

/// Every reachability iterate has one flag per type.
proof fn lemma_reach_iter_len(d: SchemaDocView, k: nat)
    ensures
        reach_iter(d, k).len() == d.types.len(),
    decreases k,
{
    if k > 0 {
        lemma_reach_iter_len(d, (k - 1) as nat);
    }
}

/// Checks that every field of the merged schema reachable from the query
/// root has a resolution path through the subgraphs, possibly hopping
/// across subgraphs by `@key` edges, and that no reachable type carries a
/// cyclic `@requires` dependency. On success the supergraph is re-tagged
/// `Satisfiable` unchanged; otherwise the full list of unresolvable
/// (type, field, position) combinations and cyclic fields is reported and
/// no supergraph is produced.
pub fn validate_satisfiability(supergraph: Supergraph<Merged>) -> (r: Result<
    Supergraph<Satisfiable>,
    Vec<CompositionError>,
>)
    ensures
        r is Ok <==> (sat_ok(supergraph@.schema, supergraph@.routing) && req_ok(
            supergraph@.schema,
            supergraph@.routing,
        )),
        r matches Ok(sg) ==> sg@ == supergraph@,
        r matches Err(es) ==> es@.len() > 0 && forall|i: int|
            0 <= i < es@.len() ==> (#[trigger] es@[i]@) is SatisfiabilityError,
{
    let ghost sv = supergraph@;
    let es = collect_sat_errors(&supergraph.schema, &supergraph.routing);
    if es.len() == 0 {
        let out = Supergraph {
            schema: supergraph.schema,
            hints: supergraph.hints,
            routing: supergraph.routing,
            state: seal_satisfiable(),
        };
        assert(out@ == sv);
        Ok(out)
    } else {
        Err(es)
    }
}

} // verus!
