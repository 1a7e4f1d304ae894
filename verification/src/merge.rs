//! The merge engine: unifies the validated subgraphs into one supergraph
//! schema, plus routing metadata and non-fatal hints.
//!
//! Merging goes by declaration name across all subgraphs, in first-appearance
//! order, so the output never depends on the iteration order of any
//! associative structure: composing the same input twice yields the same
//! document. Object and interface types take the union of their field sets
//! (same-name fields must agree on base type and list-ness; nullability is
//! reconciled towards the most permissive form), enums take the union of
//! their values, unions the union of their members. Federation directives
//! are stripped from the merged declarations and live on in the routing
//! metadata, which keeps each subgraph's `@key` edges for the
//! satisfiability analysis.

use vstd::prelude::*;
use vstd::string::StringExecFns;

use crate::error::CompositionError;
use crate::error::CompositionErrorView;
use crate::error::Hint;
use crate::model::FieldDef;
use crate::model::FieldDefView;
use crate::model::FieldType;
use crate::model::FieldTypeView;
use crate::model::SchemaDoc;
use crate::model::SchemaDocView;
use crate::model::TypeDef;
use crate::model::TypeDefView;
use crate::model::contains_name;
use crate::model::lemma_skip_one;
use crate::model::names_view;
use crate::model::vec_contains_name;
use crate::subgraph::Subgraph;
use crate::subgraph::SubgraphView;
use crate::subgraph::Validated;
use crate::supergraph::Merged;
use crate::supergraph::RoutingSubgraph;
use crate::supergraph::RoutingSubgraphView;
use crate::supergraph::Supergraph;

verus! {

/// Views of a sequence of validated subgraphs.
pub open spec fn sub_views(s: Seq<Subgraph<Validated>>) -> Seq<SubgraphView> {
    s.map(|i: int, x: Subgraph<Validated>| x@)
}

/// All type declarations of all subgraphs, in subgraph order then
/// declaration order.
pub open spec fn concat_decls(subs: Seq<SubgraphView>) -> Seq<TypeDefView>
    decreases subs.len(),
{
    if subs.len() == 0 {
        Seq::empty()
    } else {
        concat_decls(subs.drop_last()) + subs.last().schema.types
    }
}

/// The names of a sequence of type declarations.
pub open spec fn decl_names(ts: Seq<TypeDefView>) -> Seq<Seq<char>> {
    ts.map(|i: int, t: TypeDefView| t.name())
}

/// `s` with later repetitions removed: each name keeps its first position.
pub open spec fn dedup_first(s: Seq<Seq<char>>) -> Seq<Seq<char>>
    decreases s.len(),
{
    if s.len() == 0 {
        Seq::empty()
    } else {
        let d = dedup_first(s.drop_last());
        if contains_name(d, s.last()) {
            d
        } else {
            d.push(s.last())
        }
    }
}

/// The names to merge, in first-appearance order across all subgraphs.
pub open spec fn merged_type_names(subs: Seq<SubgraphView>) -> Seq<Seq<char>> {
    dedup_first(decl_names(concat_decls(subs)))
}

/// The declarations named `n`, in the order they appear.
pub open spec fn decls_named(all: Seq<TypeDefView>, n: Seq<char>) -> Seq<TypeDefView>
    decreases all.len(),
{
    if all.len() == 0 {
        Seq::empty()
    } else {
        decls_named(all.drop_last(), n) + if all.last().name() == n {
            seq![all.last()]
        } else {
            Seq::empty()
        }
    }
}

/// A name occurs among the declarations exactly when some declaration
/// carries it.
pub proof fn lemma_decls_named_nonempty(all: Seq<TypeDefView>, n: Seq<char>)
    ensures
        contains_name(decl_names(all), n) <==> decls_named(all, n).len() > 0,
    decreases all.len(),
{
    if all.len() > 0 {
        let pre = all.drop_last();
        lemma_decls_named_nonempty(pre, n);
        assert(decl_names(pre) =~= decl_names(all).drop_last());
        if all.last().name() == n {
            assert(decl_names(all)[all.len() - 1] == n);
        } else {
            if contains_name(decl_names(all), n) {
                let i = choose|i: int|
                    0 <= i < decl_names(all).len() && decl_names(all)[i] == n;
                assert(i < all.len() - 1);
                assert(decl_names(pre)[i] == n);
            }
            if contains_name(decl_names(pre), n) {
                let i = choose|i: int|
                    0 <= i < decl_names(pre).len() && decl_names(pre)[i] == n;
                assert(decl_names(all)[i] == n);
            }
        }
    }
}

/// All type declarations of all subgraphs, flattened, as references.
fn all_decls<'a>(subgraphs: &'a Vec<Subgraph<Validated>>) -> (r: Vec<&'a TypeDef>)
    ensures
        r@.map(|i: int, t: &TypeDef| t@) == concat_decls(sub_views(subgraphs@)),
{
    let ghost target = concat_decls(sub_views(subgraphs@));
    let mut out: Vec<&'a TypeDef> = Vec::new();
    proof {
        assert(out@.map(|i: int, t: &TypeDef| t@) =~= concat_decls(
            sub_views(subgraphs@.subrange(0, 0)),
        ));
    }
    let mut sx: usize = 0;
    while sx < subgraphs.len()
        invariant
            0 <= sx <= subgraphs.len(),
            out@.map(|i: int, t: &TypeDef| t@) == concat_decls(
                sub_views(subgraphs@.subrange(0, sx as int)),
            ),
        decreases subgraphs.len() - sx,
    {
        let ghost pre_outer = out@.map(|i: int, t: &TypeDef| t@);
        let types = &subgraphs[sx].schema.types;
        let mut tx: usize = 0;
        while tx < types.len()
            invariant
                0 <= tx <= types.len(),
                sx < subgraphs.len(),
                types == &subgraphs@[sx as int].schema.types,
                pre_outer == concat_decls(sub_views(subgraphs@.subrange(0, sx as int))),
                out@.map(|i: int, t: &TypeDef| t@) =~= pre_outer + subgraphs@[sx as int]@
                    .schema.types.subrange(0, tx as int),
            decreases types.len() - tx,
        {
            let ghost prev = out@;
            out.push(&types[tx]);
            proof {
                let a = out@.map(|i: int, t: &TypeDef| t@);
                let b = pre_outer + subgraphs@[sx as int]@.schema.types.subrange(
                    0,
                    (tx + 1) as int,
                );
                assert(prev.map(|i: int, t: &TypeDef| t@).len() == prev.len());
                assert forall|i: int| 0 <= i < a.len() implies a[i] == b[i] by {
                    if i < prev.len() {
                        assert(out@[i] == prev[i]);
                        assert(prev.map(|i: int, t: &TypeDef| t@)[i] == prev[i]@);
                    } else {
                        assert(out@[i] == types@[tx as int]);
                        assert(b[i] == subgraphs@[sx as int]@.schema.types[tx as int]);
                    }
                }
                assert(a =~= b);
            }
            tx += 1;
        }
        proof {
            let full = subgraphs@.subrange(0, (sx + 1) as int);
            assert(full.drop_last() =~= subgraphs@.subrange(0, sx as int));
            assert(sub_views(full).drop_last() =~= sub_views(full.drop_last()));
            assert(sub_views(full).last() == subgraphs@[sx as int]@);
            assert(subgraphs@[sx as int]@.schema.types.subrange(
                0,
                types@.len() as int,
            ) =~= subgraphs@[sx as int]@.schema.types);
            assert(concat_decls(sub_views(full)) == concat_decls(sub_views(full).drop_last())
                + sub_views(full).last().schema.types);
            assert(out@.map(|i: int, t: &TypeDef| t@) =~= concat_decls(sub_views(full)));
        }
        sx += 1;
    }
    proof {
        assert(subgraphs@.subrange(0, subgraphs@.len() as int) =~= subgraphs@);
    }
    out
}

/// The merged type names, in first-appearance order.
fn collect_type_names(decls: &Vec<&TypeDef>) -> (r: Vec<String>)
    ensures
        names_view(r@) == dedup_first(decl_names(decls@.map(|i: int, t: &TypeDef| t@))),
{
    let ghost all = decls@.map(|i: int, t: &TypeDef| t@);
    let mut out: Vec<String> = Vec::new();
    proof {
        assert(decl_names(all.subrange(0, 0)) =~= Seq::<Seq<char>>::empty());
        assert(names_view(out@) =~= dedup_first(decl_names(all.subrange(0, 0))));
    }
    let mut ix: usize = 0;
    while ix < decls.len()
        invariant
            0 <= ix <= decls.len(),
            all == decls@.map(|i: int, t: &TypeDef| t@),
            all.len() == decls@.len(),
            names_view(out@) == dedup_first(decl_names(all.subrange(0, ix as int))),
        decreases decls.len() - ix,
    {
        let ghost prefix = all.subrange(0, ix as int);
        let ghost next = all.subrange(0, (ix + 1) as int);
        proof {
            assert(next.drop_last() =~= prefix);
            assert(decl_names(next).drop_last() =~= decl_names(prefix));
            assert(decl_names(next).last() == all[ix as int].name());
        }
        let name = decls[ix].name();
        if !vec_contains_name(&out, name) {
            let ghost prev = out@;
            let nm = name.clone();
            let ghost nv = nm@;
            out.push(nm);
            proof {
                assert(names_view(prev).len() == prev.len());
                assert(out@[prev.len() as int]@ == nv);
                assert(names_view(out@) =~= names_view(prev).push(nv));
                assert(names_view(out@) =~= dedup_first(decl_names(next)));
            }
        } else {
            proof {
                assert(names_view(out@) =~= dedup_first(decl_names(next)));
            }
        }
        ix += 1;
    }
    proof {
        assert(all.subrange(0, all.len() as int) =~= all);
    }
    out
}

/// The declarations named `n`, as references, in order.
fn collect_decls_named<'a>(decls: &Vec<&'a TypeDef>, n: &String) -> (r: Vec<&'a TypeDef>)
    ensures
        r@.map(|i: int, t: &TypeDef| t@) == decls_named(
            decls@.map(|i: int, t: &TypeDef| t@),
            n@,
        ),
{
    let ghost all = decls@.map(|i: int, t: &TypeDef| t@);
    let mut out: Vec<&'a TypeDef> = Vec::new();
    proof {
        assert(out@.map(|i: int, t: &TypeDef| t@) =~= decls_named(all.subrange(0, 0), n@));
    }
    let mut ix: usize = 0;
    while ix < decls.len()
        invariant
            0 <= ix <= decls.len(),
            all == decls@.map(|i: int, t: &TypeDef| t@),
            all.len() == decls@.len(),
            out@.map(|i: int, t: &TypeDef| t@) == decls_named(all.subrange(0, ix as int), n@),
        decreases decls.len() - ix,
    {
        let ghost prefix = all.subrange(0, ix as int);
        let ghost next = all.subrange(0, (ix + 1) as int);
        proof {
            assert(next.drop_last() =~= prefix);
            assert(next.last() == all[ix as int]);
        }
        let t = decls[ix];
        if *t.name() == *n {
            out.push(t);
            proof {
                assert(out@.map(|i: int, t: &TypeDef| t@) =~= decls_named(prefix, n@) + seq![
                    all[ix as int]]);
            }
        } else {
            proof {
                assert(decls_named(next, n@) =~= decls_named(prefix, n@));
            }
        }
        ix += 1;
    }
    proof {
        assert(all.subrange(0, all.len() as int) =~= all);
    }
    out
}

// ------------------------------------------------------------------
// Merging the declarations that share one name.
// ------------------------------------------------------------------
/// Message for declarations of one name with different kinds.
pub open spec fn kind_conflict_message(n: Seq<char>) -> Seq<char> {
    "Type "@ + n + " has conflicting kinds across subgraphs"@
}

/// Message for a field declared with incompatible types.
pub open spec fn field_conflict_message(n: Seq<char>, f: Seq<char>) -> Seq<char> {
    "Field "@ + n + "."@ + f + " has incompatible types across subgraphs"@
}

/// Message of the hint recorded when distinct descriptions were seen.
pub open spec fn description_hint_message(n: Seq<char>) -> Seq<char> {
    "Inconsistent descriptions for type "@ + n + "; using the first"@
}

/// `f` with every federation marker removed.
pub open spec fn strip_field(f: FieldDefView) -> FieldDefView {
    FieldDefView {
        name: f.name,
        ty: f.ty,
        external: false,
        shareable: false,
        requires: None,
        provides: None,
    }
}

/// Whether a field carries no federation marker.
pub open spec fn is_stripped(f: FieldDefView) -> bool {
    f == strip_field(f)
}

/// Whether no field of the sequence carries a federation marker.
pub open spec fn all_stripped(fs: Seq<FieldDefView>) -> bool {
    forall|i: int| 0 <= i < fs.len() ==> is_stripped(#[trigger] fs[i])
}

/// First index of a field with the given name, if any.
pub open spec fn first_field_index(fs: Seq<FieldDefView>, n: Seq<char>) -> Option<int>
    decreases fs.len(),
{
    if fs.len() == 0 {
        None
    } else if fs[0].name == n {
        Some(0)
    } else {
        match first_field_index(fs.skip(1), n) {
            Some(i) => Some(i + 1),
            None => None,
        }
    }
}

/// What [`first_field_index`] finds is in range and matches; a miss means
/// no field has the name.
pub proof fn lemma_first_field_index(fs: Seq<FieldDefView>, n: Seq<char>)
    ensures
        first_field_index(fs, n) matches Some(i) ==> 0 <= i < fs.len() && fs[i].name == n,
        first_field_index(fs, n) is None ==> forall|i: int| 0 <= i < fs.len() ==> fs[i].name != n,
    decreases fs.len(),
{
    if fs.len() > 0 {
        lemma_first_field_index(fs.skip(1), n);
        if first_field_index(fs, n) is None {
            assert forall|i: int| 0 <= i < fs.len() implies fs[i].name != n by {
                if i > 0 {
                    assert(fs.skip(1)[i - 1] == fs[i]);
                }
            }
        }
    }
}

/// If every earlier field has a different name and position `k` matches,
/// then `k` is the first index for that name.
pub proof fn lemma_first_field_index_found(fs: Seq<FieldDefView>, n: Seq<char>, k: int)
    requires
        0 <= k < fs.len(),
        fs[k].name == n,
        forall|i: int| 0 <= i < k ==> fs[i].name != n,
    ensures
        first_field_index(fs, n) == Some(k),
    decreases k,
{
    if k > 0 {
        lemma_first_field_index_found(fs.skip(1), n, k - 1);
    }
}

/// The merged field list after reconciling nullability at position `j`:
/// the merged field is non-null only if every declaration of it is.
pub open spec fn weaken_at(fs: Seq<FieldDefView>, j: int, non_null: bool) -> Seq<FieldDefView> {
    fs.update(
        j,
        FieldDefView {
            name: fs[j].name,
            ty: FieldTypeView {
                base: fs[j].ty.base,
                non_null: fs[j].ty.non_null && non_null,
                list: fs[j].ty.list,
            },
            external: fs[j].external,
            shareable: fs[j].shareable,
            requires: fs[j].requires,
            provides: fs[j].provides,
        },
    )
}

/// Adds one declared field to the merged field list: a new name is
/// appended stripped of federation markers; a known name must agree on
/// base type and list-ness, and weakens nullability.
pub open spec fn add_field(tname: Seq<char>, acc: Seq<FieldDefView>, f: FieldDefView) -> Result<
    Seq<FieldDefView>,
    CompositionErrorView,
> {
    match first_field_index(acc, f.name) {
        Some(j) => if acc[j].ty.base == f.ty.base && acc[j].ty.list == f.ty.list {
            Ok(weaken_at(acc, j, f.ty.non_null))
        } else {
            Err(
                CompositionErrorView::TypeDefinitionInvalid {
                    message: field_conflict_message(tname, f.name),
                },
            )
        },
        None => Ok(acc.push(strip_field(f))),
    }
}

/// Folds a whole declaration's fields into the merged field list.
pub open spec fn add_fields(
    tname: Seq<char>,
    acc: Seq<FieldDefView>,
    fs: Seq<FieldDefView>,
) -> Result<Seq<FieldDefView>, CompositionErrorView>
    decreases fs.len(),
{
    if fs.len() == 0 {
        Ok(acc)
    } else {
        match add_field(tname, acc, fs[0]) {
            Ok(a2) => add_fields(tname, a2, fs.skip(1)),
            Err(e) => Err(e),
        }
    }
}

/// Folds every declaration of an object or interface type into one merged
/// field list; a declaration of another kind, or of the other
/// object/interface flavour, is a kind conflict.
pub open spec fn merge_fields_from(
    tname: Seq<char>,
    is_interface: bool,
    acc: Seq<FieldDefView>,
    decls: Seq<TypeDefView>,
) -> Result<Seq<FieldDefView>, CompositionErrorView>
    decreases decls.len(),
{
    if decls.len() == 0 {
        Ok(acc)
    } else {
        match decls[0] {
            TypeDefView::Object(o) => if o.is_interface == is_interface {
                match add_fields(tname, acc, o.fields) {
                    Ok(a2) => merge_fields_from(tname, is_interface, a2, decls.skip(1)),
                    Err(e) => Err(e),
                }
            } else {
                Err(
                    CompositionErrorView::TypeDefinitionInvalid {
                        message: kind_conflict_message(tname),
                    },
                )
            },
            _ => Err(
                CompositionErrorView::TypeDefinitionInvalid {
                    message: kind_conflict_message(tname),
                },
            ),
        }
    }
}

/// `acc` extended with the names of `vs` that it does not yet hold.
pub open spec fn dedup_append(acc: Seq<Seq<char>>, vs: Seq<Seq<char>>) -> Seq<Seq<char>>
    decreases vs.len(),
{
    if vs.len() == 0 {
        acc
    } else {
        dedup_append(
            if contains_name(acc, vs[0]) {
                acc
            } else {
                acc.push(vs[0])
            },
            vs.skip(1),
        )
    }
}

/// Folds every declaration of an enum type into one merged value list.
pub open spec fn collect_enum_values(
    tname: Seq<char>,
    acc: Seq<Seq<char>>,
    decls: Seq<TypeDefView>,
) -> Result<Seq<Seq<char>>, CompositionErrorView>
    decreases decls.len(),
{
    if decls.len() == 0 {
        Ok(acc)
    } else {
        match decls[0] {
            TypeDefView::Enum(e) => collect_enum_values(
                tname,
                dedup_append(acc, e.values),
                decls.skip(1),
            ),
            _ => Err(
                CompositionErrorView::TypeDefinitionInvalid {
                    message: kind_conflict_message(tname),
                },
            ),
        }
    }
}

/// Folds every declaration of a union type into one merged member list.
pub open spec fn collect_union_members(
    tname: Seq<char>,
    acc: Seq<Seq<char>>,
    decls: Seq<TypeDefView>,
) -> Result<Seq<Seq<char>>, CompositionErrorView>
    decreases decls.len(),
{
    if decls.len() == 0 {
        Ok(acc)
    } else {
        match decls[0] {
            TypeDefView::Union(u) => collect_union_members(
                tname,
                dedup_append(acc, u.members),
                decls.skip(1),
            ),
            _ => Err(
                CompositionErrorView::TypeDefinitionInvalid {
                    message: kind_conflict_message(tname),
                },
            ),
        }
    }
}

/// The first non-empty description among the declarations, in order: the
/// deterministic, order-fixed choice for the merged declaration.
pub open spec fn first_description(decls: Seq<TypeDefView>) -> Option<Seq<char>>
    decreases decls.len(),
{
    if decls.len() == 0 {
        None
    } else {
        match decls[0].description() {
            Some(d) => if d.len() > 0 {
                Some(d)
            } else {
                first_description(decls.skip(1))
            },
            None => first_description(decls.skip(1)),
        }
    }
}

/// Whether some non-empty description differs from the chosen one.
pub open spec fn description_conflict(decls: Seq<TypeDefView>) -> bool {
    match first_description(decls) {
        None => false,
        Some(d) => exists|k: int|
            0 <= k < decls.len() && (#[trigger] decls[k].description() matches Some(e) && e.len()
                > 0 && e != d),
    }
}

/// The merged declaration for one name, from all its declarations in
/// order, or the error that makes the name unmergeable.
pub open spec fn merged_type_for(n: Seq<char>, decls: Seq<TypeDefView>) -> Result<
    TypeDefView,
    CompositionErrorView,
>
    recommends
        decls.len() > 0,
{
    match decls[0] {
        TypeDefView::Object(o0) => match merge_fields_from(
            n,
            o0.is_interface,
            Seq::empty(),
            decls,
        ) {
            Ok(fs) => Ok(
                TypeDefView::Object(
                    crate::model::ObjectDefView {
                        name: n,
                        description: first_description(decls),
                        is_interface: o0.is_interface,
                        fields: fs,
                        keys: Seq::empty(),
                    },
                ),
            ),
            Err(e) => Err(e),
        },
        TypeDefView::Enum(_) => match collect_enum_values(n, Seq::empty(), decls) {
            Ok(vs) => Ok(
                TypeDefView::Enum(
                    crate::model::EnumDefView {
                        name: n,
                        description: first_description(decls),
                        values: vs,
                    },
                ),
            ),
            Err(e) => Err(e),
        },
        TypeDefView::Union(_) => match collect_union_members(n, Seq::empty(), decls) {
            Ok(ms) => Ok(
                TypeDefView::Union(
                    crate::model::UnionDefView {
                        name: n,
                        description: first_description(decls),
                        members: ms,
                    },
                ),
            ),
            Err(e) => Err(e),
        },
    }
}

/// The hint recorded for one name, if its declarations merged but carried
/// distinct non-empty descriptions.
pub open spec fn hint_for(n: Seq<char>, decls: Seq<TypeDefView>) -> Option<Seq<char>>
    recommends
        decls.len() > 0,
{
    if merged_type_for(n, decls) is Ok && description_conflict(decls) {
        Some(description_hint_message(n))
    } else {
        None
    }
}

/// Views of a sequence of field declarations.
pub open spec fn fd_views(s: Seq<FieldDef>) -> Seq<FieldDefView> {
    s.map(|i: int, f: FieldDef| f@)
}

/// Views of a sequence of type declaration references.
pub open spec fn decl_views(s: Seq<&TypeDef>) -> Seq<TypeDefView> {
    s.map(|i: int, t: &TypeDef| t@)
}

/// First position of a field with the given name in the merged list.
fn find_field_slot(acc: &Vec<FieldDef>, n: &String) -> (r: Option<usize>)
    ensures
        match r {
            Some(j) => first_field_index(fd_views(acc@), n@) == Some(j as int),
            None => first_field_index(fd_views(acc@), n@) is None,
        },
{
    let ghost fsv = fd_views(acc@);
    let mut ix: usize = 0;
    while ix < acc.len()
        invariant
            0 <= ix <= acc.len(),
            fsv == fd_views(acc@),
            fsv.len() == acc@.len(),
            forall|i: int| 0 <= i < ix ==> fsv[i].name != n@,
        decreases acc.len() - ix,
    {
        if acc[ix].name == *n {
            proof {
                lemma_first_field_index_found(fsv, n@, ix as int);
            }
            return Some(ix);
        }
        ix += 1;
    }
    proof {
        lemma_first_field_index(fsv, n@);
    }
    None
}

/// Adds one declared field to the merged field list, as [`add_field`].
fn add_field_exec(tname: &String, acc: &mut Vec<FieldDef>, f: &FieldDef) -> (r: Result<
    (),
    CompositionError,
>)
    requires
        all_stripped(fd_views(old(acc)@)),
    ensures
        match r {
            Ok(u) => add_field(tname@, fd_views(old(acc)@), f@) == Ok::<_, CompositionErrorView>(
                fd_views(final(acc)@),
            ) && all_stripped(fd_views(final(acc)@)),
            Err(e) => {
                &&& add_field(tname@, fd_views(old(acc)@), f@) matches Err(ev)
                &&& e@ == ev
                &&& final(acc)@ == old(acc)@
            },
        },
{
    let ghost acc0 = fd_views(acc@);
    let slot = find_field_slot(acc, &f.name);
    match slot {
        Some(j) => {
            proof {
                lemma_first_field_index(acc0, f@.name);
                assert(acc0.len() == acc@.len());
            }
            let same_base = acc[j].ty.base == f.ty.base;
            let same_list = acc[j].ty.list == f.ty.list;
            if same_base && same_list {
                let non_null = acc[j].ty.non_null && f.ty.non_null;
                let name_c = acc[j].name.clone();
                let base_c = acc[j].ty.base.clone();
                let list_c = acc[j].ty.list;
                acc[j] = FieldDef {
                    name: name_c,
                    ty: FieldType { base: base_c, non_null, list: list_c },
                    external: false,
                    shareable: false,
                    requires: None,
                    provides: None,
                };
                proof {
                    assert(is_stripped(acc0[j as int]));
                    assert(fd_views(acc@) =~= weaken_at(acc0, j as int, f@.ty.non_null));
                    assert forall|i: int|
                        0 <= i < fd_views(acc@).len() implies is_stripped(
                        #[trigger] fd_views(acc@)[i],
                    ) by {
                        if i != j {
                            assert(fd_views(acc@)[i] == acc0[i]);
                        }
                    }
                }
                Ok(())
            } else {
                let message = String::from_str("Field ").concat(tname.as_str()).concat(".").concat(
                    f.name.as_str(),
                ).concat(" has incompatible types across subgraphs");
                Err(CompositionError::TypeDefinitionInvalid { message })
            }
        },
        None => {
            acc.push(f.stripped());
            proof {
                assert(fd_views(acc@) =~= acc0.push(strip_field(f@)));
                assert forall|i: int|
                    0 <= i < fd_views(acc@).len() implies is_stripped(
                    #[trigger] fd_views(acc@)[i],
                ) by {
                    if i < acc0.len() {
                        assert(fd_views(acc@)[i] == acc0[i]);
                    }
                }
            }
            Ok(())
        },
    }
}

/// Folds a declaration's fields into the merged list, as [`add_fields`].
fn add_fields_exec(tname: &String, acc: &mut Vec<FieldDef>, fs: &Vec<FieldDef>) -> (r: Result<
    (),
    CompositionError,
>)
    requires
        all_stripped(fd_views(old(acc)@)),
    ensures
        match r {
            Ok(u) => add_fields(tname@, fd_views(old(acc)@), fd_views(fs@)) == Ok::<
                _,
                CompositionErrorView,
            >(fd_views(final(acc)@)) && all_stripped(fd_views(final(acc)@)),
            Err(e) => {
                &&& add_fields(tname@, fd_views(old(acc)@), fd_views(fs@)) matches Err(ev)
                &&& e@ == ev
            },
        },
{
    let ghost acc0 = fd_views(acc@);
    let ghost fsv = fd_views(fs@);
    proof {
        assert(fsv.skip(0) =~= fsv);
    }
    let mut ix: usize = 0;
    while ix < fs.len()
        invariant
            0 <= ix <= fs.len(),
            acc0 == fd_views(old(acc)@),
            fsv == fd_views(fs@),
            fsv.len() == fs@.len(),
            all_stripped(fd_views(acc@)),
            add_fields(tname@, acc0, fsv) == add_fields(tname@, fd_views(acc@), fsv.skip(ix as int)),
        decreases fs.len() - ix,
    {
        proof {
            lemma_skip_one(fsv, ix as int);
        }
        assert(fsv.skip(ix as int)[0] == fsv[ix as int] && fsv[ix as int] == fs@[ix as int]@);
        let stepped = add_field_exec(tname, acc, &fs[ix]);
        match stepped {
            Ok(u) => {},
            Err(e) => {
                proof {
                    assert(add_fields(tname@, acc0, fsv) matches Err(ev) && e@ == ev);
                }
                return Err(e);
            },
        }
        ix += 1;
    }
    assert(fsv.skip(fsv.len() as int).len() == 0);
    Ok(())
}

/// Merges every declaration of an object or interface name into one field
/// list, as [`merge_fields_from`] starting from an empty list.
fn merge_object_fields_exec(n: &String, is_interface: bool, decls: &Vec<&TypeDef>) -> (r: Result<
    Vec<FieldDef>,
    CompositionError,
>)
    ensures
        match r {
            Ok(a) => merge_fields_from(n@, is_interface, Seq::empty(), decl_views(decls@)) == Ok::<
                _,
                CompositionErrorView,
            >(fd_views(a@)) && all_stripped(fd_views(a@)),
            Err(e) => {
                &&& merge_fields_from(n@, is_interface, Seq::empty(), decl_views(decls@))
                    matches Err(ev)
                &&& e@ == ev
            },
        },
{
    let ghost dv = decl_views(decls@);
    let mut cur: Vec<FieldDef> = Vec::new();
    proof {
        assert(fd_views(cur@) =~= Seq::<FieldDefView>::empty());
        assert(dv.skip(0) =~= dv);
    }
    let mut ix: usize = 0;
    while ix < decls.len()
        invariant
            0 <= ix <= decls.len(),
            dv == decl_views(decls@),
            dv.len() == decls@.len(),
            all_stripped(fd_views(cur@)),
            merge_fields_from(n@, is_interface, Seq::empty(), dv) == merge_fields_from(
                n@,
                is_interface,
                fd_views(cur@),
                dv.skip(ix as int),
            ),
        decreases decls.len() - ix,
    {
        proof {
            lemma_skip_one(dv, ix as int);
        }
        assert(dv.skip(ix as int)[0] == dv[ix as int] && dv[ix as int] == decls@[ix as int]@);
        match decls[ix] {
            TypeDef::Object(o) => {
                if o.is_interface == is_interface {
                    let stepped = add_fields_exec(n, &mut cur, &o.fields);
                    match stepped {
                        Ok(u) => {},
                        Err(e) => {
                            return Err(e);
                        },
                    }
                } else {
                    let message = String::from_str("Type ").concat(n.as_str()).concat(
                        " has conflicting kinds across subgraphs",
                    );
                    return Err(CompositionError::TypeDefinitionInvalid { message });
                }
            },
            _ => {
                let message = String::from_str("Type ").concat(n.as_str()).concat(
                    " has conflicting kinds across subgraphs",
                );
                return Err(CompositionError::TypeDefinitionInvalid { message });
            },
        }
        ix += 1;
    }
    assert(dv.skip(dv.len() as int).len() == 0);
    Ok(cur)
}

/// Appends the names of `vs` not yet present, as [`dedup_append`].
fn dedup_append_exec(acc: &mut Vec<String>, vs: &Vec<String>)
    ensures
        names_view(final(acc)@) == dedup_append(names_view(old(acc)@), names_view(vs@)),
{
    let ghost acc0 = names_view(acc@);
    let ghost vsv = names_view(vs@);
    proof {
        assert(vsv.skip(0) =~= vsv);
    }
    let mut ix: usize = 0;
    while ix < vs.len()
        invariant
            0 <= ix <= vs.len(),
            vsv == names_view(vs@),
            vsv.len() == vs@.len(),
            dedup_append(acc0, vsv) == dedup_append(names_view(acc@), vsv.skip(ix as int)),
        decreases vs.len() - ix,
    {
        proof {
            lemma_skip_one(vsv, ix as int);
        }
        assert(vsv.skip(ix as int)[0] == vsv[ix as int] && vsv[ix as int] == vs@[ix as int]@);
        if !vec_contains_name(acc, &vs[ix]) {
            let ghost prev = acc@;
            let nm = vs[ix].clone();
            let ghost nv = nm@;
            acc.push(nm);
            proof {
                assert(names_view(prev).len() == prev.len());
                assert(acc@[prev.len() as int]@ == nv);
                assert(names_view(acc@) =~= names_view(prev).push(nv));
            }
        }
        ix += 1;
    }
    assert(vsv.skip(vsv.len() as int).len() == 0);
}

/// Merges every declaration of an enum name into one value list, as
/// [`collect_enum_values`] starting from an empty list.
fn collect_enum_values_exec(n: &String, decls: &Vec<&TypeDef>) -> (r: Result<
    Vec<String>,
    CompositionError,
>)
    ensures
        match r {
            Ok(a) => collect_enum_values(n@, Seq::empty(), decl_views(decls@)) == Ok::<
                _,
                CompositionErrorView,
            >(names_view(a@)),
            Err(e) => {
                &&& collect_enum_values(n@, Seq::empty(), decl_views(decls@)) matches Err(ev)
                &&& e@ == ev
            },
        },
{
    let ghost dv = decl_views(decls@);
    let mut cur: Vec<String> = Vec::new();
    proof {
        assert(names_view(cur@) =~= Seq::<Seq<char>>::empty());
        assert(dv.skip(0) =~= dv);
    }
    let mut ix: usize = 0;
    while ix < decls.len()
        invariant
            0 <= ix <= decls.len(),
            dv == decl_views(decls@),
            dv.len() == decls@.len(),
            collect_enum_values(n@, Seq::empty(), dv) == collect_enum_values(
                n@,
                names_view(cur@),
                dv.skip(ix as int),
            ),
        decreases decls.len() - ix,
    {
        proof {
            lemma_skip_one(dv, ix as int);
        }
        assert(dv.skip(ix as int)[0] == dv[ix as int] && dv[ix as int] == decls@[ix as int]@);
        match decls[ix] {
            TypeDef::Enum(e) => {
                dedup_append_exec(&mut cur, &e.values);
            },
            _ => {
                let message = String::from_str("Type ").concat(n.as_str()).concat(
                    " has conflicting kinds across subgraphs",
                );
                return Err(CompositionError::TypeDefinitionInvalid { message });
            },
        }
        ix += 1;
    }
    assert(dv.skip(dv.len() as int).len() == 0);
    Ok(cur)
}

/// Merges every declaration of a union name into one member list, as
/// [`collect_union_members`] starting from an empty list.
fn collect_union_members_exec(n: &String, decls: &Vec<&TypeDef>) -> (r: Result<
    Vec<String>,
    CompositionError,
>)
    ensures
        match r {
            Ok(a) => collect_union_members(n@, Seq::empty(), decl_views(decls@)) == Ok::<
                _,
                CompositionErrorView,
            >(names_view(a@)),
            Err(e) => {
                &&& collect_union_members(n@, Seq::empty(), decl_views(decls@)) matches Err(ev)
                &&& e@ == ev
            },
        },
{
    let ghost dv = decl_views(decls@);
    let mut cur: Vec<String> = Vec::new();
    proof {
        assert(names_view(cur@) =~= Seq::<Seq<char>>::empty());
        assert(dv.skip(0) =~= dv);
    }
    let mut ix: usize = 0;
    while ix < decls.len()
        invariant
            0 <= ix <= decls.len(),
            dv == decl_views(decls@),
            dv.len() == decls@.len(),
            collect_union_members(n@, Seq::empty(), dv) == collect_union_members(
                n@,
                names_view(cur@),
                dv.skip(ix as int),
            ),
        decreases decls.len() - ix,
    {
        proof {
            lemma_skip_one(dv, ix as int);
        }
        assert(dv.skip(ix as int)[0] == dv[ix as int] && dv[ix as int] == decls@[ix as int]@);
        match decls[ix] {
            TypeDef::Union(u) => {
                dedup_append_exec(&mut cur, &u.members);
            },
            _ => {
                let message = String::from_str("Type ").concat(n.as_str()).concat(
                    " has conflicting kinds across subgraphs",
                );
                return Err(CompositionError::TypeDefinitionInvalid { message });
            },
        }
        ix += 1;
    }
    assert(dv.skip(dv.len() as int).len() == 0);
    Ok(cur)
}

/// The first non-empty description among the declarations, cloned.
fn first_description_exec(decls: &Vec<&TypeDef>) -> (r: Option<String>)
    ensures
        crate::model::opt_string_view(r) == first_description(decl_views(decls@)),
{
    let ghost dv = decl_views(decls@);
    proof {
        assert(dv.skip(0) =~= dv);
    }
    let mut ix: usize = 0;
    while ix < decls.len()
        invariant
            0 <= ix <= decls.len(),
            dv == decl_views(decls@),
            dv.len() == decls@.len(),
            first_description(dv) == first_description(dv.skip(ix as int)),
        decreases decls.len() - ix,
    {
        proof {
            lemma_skip_one(dv, ix as int);
        }
        assert(dv.skip(ix as int)[0] == dv[ix as int] && dv[ix as int] == decls@[ix as int]@);
        let d = decls[ix].description();
        match d {
            Some(text) => {
                if !text.as_str().is_empty() {
                    return Some(text.clone());
                }
            },
            None => {},
        }
        ix += 1;
    }
    assert(dv.skip(dv.len() as int).len() == 0);
    None
}

/// Whether some non-empty description differs from the chosen one.
fn description_conflict_exec(decls: &Vec<&TypeDef>) -> (r: bool)
    ensures
        r == description_conflict(decl_views(decls@)),
{
    let ghost dv = decl_views(decls@);
    let first = first_description_exec(decls);
    match first {
        None => false,
        Some(d) => {
            let mut ix: usize = 0;
            while ix < decls.len()
                invariant
                    0 <= ix <= decls.len(),
                    dv == decl_views(decls@),
                    dv.len() == decls@.len(),
                    first_description(dv) == Some(d@),
                    forall|k: int|
                        0 <= k < ix ==> !(#[trigger] dv[k].description() matches Some(e) && e.len()
                            > 0 && e != d@),
                decreases decls.len() - ix,
            {
                let e = decls[ix].description();
                match e {
                    Some(text) => {
                        if !text.as_str().is_empty() && *text != d {
                            assert(dv[ix as int].description() matches Some(t) && t.len() > 0 && t
                                != d@);
                            return true;
                        }
                    },
                    None => {},
                }
                assert(!(dv[ix as int].description() matches Some(e) && e.len() > 0 && e != d@));
                ix += 1;
            }
            false
        },
    }
}

/// The merged declaration for one name, as [`merged_type_for`].
fn merge_one_type(n: &String, decls: &Vec<&TypeDef>) -> (r: Result<TypeDef, CompositionError>)
    requires
        decls@.len() > 0,
    ensures
        match r {
            Ok(t) => merged_type_for(n@, decl_views(decls@)) == Ok::<_, CompositionErrorView>(t@),
            Err(e) => {
                &&& merged_type_for(n@, decl_views(decls@)) matches Err(ev)
                &&& e@ == ev
            },
        },
{
    let ghost dv = decl_views(decls@);
    assert(dv[0] == decls@[0]@);
    match decls[0] {
        TypeDef::Object(o0) => {
            let merged = merge_object_fields_exec(n, o0.is_interface, decls);
            match merged {
                Ok(fields) => {
                    let description = first_description_exec(decls);
                    let keys: Vec<crate::model::FieldSet> = Vec::new();
                    proof {
                        assert(keys@.map(|i: int, k: crate::model::FieldSet| k@) =~= Seq::<
                            Seq<Seq<char>>,
                        >::empty());
                    }
                    let out = TypeDef::Object(
                        crate::model::ObjectDef {
                            name: n.clone(),
                            description,
                            is_interface: o0.is_interface,
                            fields,
                            keys,
                        },
                    );
                    assert(merged_type_for(n@, dv) == Ok::<_, CompositionErrorView>(out@));
                    Ok(out)
                },
                Err(e) => Err(e),
            }
        },
        TypeDef::Enum(_) => {
            let merged = collect_enum_values_exec(n, decls);
            match merged {
                Ok(values) => {
                    let description = first_description_exec(decls);
                    let out = TypeDef::Enum(
                        crate::model::EnumDef { name: n.clone(), description, values },
                    );
                    Ok(out)
                },
                Err(e) => Err(e),
            }
        },
        TypeDef::Union(_) => {
            let merged = collect_union_members_exec(n, decls);
            match merged {
                Ok(members) => {
                    let description = first_description_exec(decls);
                    let out = TypeDef::Union(
                        crate::model::UnionDef { name: n.clone(), description, members },
                    );
                    Ok(out)
                },
                Err(e) => Err(e),
            }
        },
    }
}


// ------------------------------------------------------------------
// Assembling the whole merged schema, the error list and the hint list.
// ------------------------------------------------------------------
/// The merged declarations of the named types, skipping names that failed.
pub open spec fn merge_types_over(names: Seq<Seq<char>>, all: Seq<TypeDefView>) -> Seq<TypeDefView>
    decreases names.len(),
{
    if names.len() == 0 {
        Seq::empty()
    } else {
        (match merged_type_for(names[0], decls_named(all, names[0])) {
            Ok(t) => seq![t],
            Err(_) => Seq::empty(),
        }) + merge_types_over(names.skip(1), all)
    }
}

/// The merge errors of the named types, in name order.
pub open spec fn merge_errors_over(names: Seq<Seq<char>>, all: Seq<TypeDefView>) -> Seq<
    CompositionErrorView,
>
    decreases names.len(),
{
    if names.len() == 0 {
        Seq::empty()
    } else {
        (match merged_type_for(names[0], decls_named(all, names[0])) {
            Ok(_) => Seq::empty(),
            Err(e) => seq![e],
        }) + merge_errors_over(names.skip(1), all)
    }
}

/// The hints of the named types, in name order.
pub open spec fn merge_hints_over(names: Seq<Seq<char>>, all: Seq<TypeDefView>) -> Seq<Seq<char>>
    decreases names.len(),
{
    if names.len() == 0 {
        Seq::empty()
    } else {
        (match hint_for(names[0], decls_named(all, names[0])) {
            Some(m) => seq![m],
            None => Seq::empty(),
        }) + merge_hints_over(names.skip(1), all)
    }
}

/// The first declared query root across the subgraphs, in order.
pub open spec fn first_query_root(subs: Seq<SubgraphView>) -> Option<Seq<char>>
    decreases subs.len(),
{
    if subs.len() == 0 {
        None
    } else {
        match subs[0].schema.query_root {
            Some(r) => Some(r),
            None => first_query_root(subs.skip(1)),
        }
    }
}

/// The errors of merging the given subgraphs.
pub open spec fn merge_error_views(subs: Seq<SubgraphView>) -> Seq<CompositionErrorView> {
    merge_errors_over(merged_type_names(subs), concat_decls(subs))
}

/// The hints of merging the given subgraphs.
pub open spec fn merge_hint_views(subs: Seq<SubgraphView>) -> Seq<Seq<char>> {
    merge_hints_over(merged_type_names(subs), concat_decls(subs))
}

/// The merged schema document of the given subgraphs.
pub open spec fn merged_schema_view(subs: Seq<SubgraphView>) -> SchemaDocView {
    SchemaDocView {
        query_root: first_query_root(subs),
        types: merge_types_over(merged_type_names(subs), concat_decls(subs)),
    }
}

/// The routing metadata retained for the given subgraphs.
pub open spec fn routing_views(subs: Seq<SubgraphView>) -> Seq<RoutingSubgraphView> {
    subs.map(|i: int, s: SubgraphView| RoutingSubgraphView { name: s.name, schema: s.schema })
}

/// A name that survives deduplication was in the original sequence.
pub proof fn lemma_dedup_first_sub(s: Seq<Seq<char>>, x: Seq<char>)
    ensures
        contains_name(dedup_first(s), x) ==> contains_name(s, x),
    decreases s.len(),
{
    if s.len() > 0 {
        let pre = s.drop_last();
        lemma_dedup_first_sub(pre, x);
        if contains_name(dedup_first(s), x) {
            if contains_name(dedup_first(pre), x) {
                let i = choose|i: int| 0 <= i < pre.len() && pre[i] == x;
                assert(s[i] == x);
            } else {
                assert(dedup_first(s) == dedup_first(pre).push(s.last()));
                let j = choose|j: int|
                    0 <= j < dedup_first(s).len() && dedup_first(s)[j] == x;
                assert(j == dedup_first(pre).len());
                assert(s[s.len() - 1] == x);
            }
        }
    }
}

/// Pushing a declaration commutes with taking views.
proof fn lemma_typedef_views_push(s: Seq<TypeDef>, t: TypeDef)
    ensures
        (s.push(t)).map(|i: int, x: TypeDef| x@) =~= s.map(|i: int, x: TypeDef| x@).push(t@),
{
    let a = (s.push(t)).map(|i: int, x: TypeDef| x@);
    let b = s.map(|i: int, x: TypeDef| x@).push(t@);
    assert forall|i: int| 0 <= i < a.len() implies a[i] == b[i] by {
        if i < s.len() {
            assert(s.push(t)[i] == s[i]);
        } else {
            assert(s.push(t)[i] == t);
        }
    }
}

/// Pushing an error commutes with taking views.
proof fn lemma_error_views_push(s: Seq<CompositionError>, e: CompositionError)
    ensures
        (s.push(e)).map(|i: int, x: CompositionError| x@) =~= s.map(
            |i: int, x: CompositionError| x@,
        ).push(e@),
{
    let a = (s.push(e)).map(|i: int, x: CompositionError| x@);
    let b = s.map(|i: int, x: CompositionError| x@).push(e@);
    assert forall|i: int| 0 <= i < a.len() implies a[i] == b[i] by {
        if i < s.len() {
            assert(s.push(e)[i] == s[i]);
        } else {
            assert(s.push(e)[i] == e);
        }
    }
}

/// Pushing a hint commutes with taking views.
proof fn lemma_hint_views_push(s: Seq<Hint>, h: Hint)
    ensures
        (s.push(h)).map(|i: int, x: Hint| x@) =~= s.map(|i: int, x: Hint| x@).push(h@),
{
    let a = (s.push(h)).map(|i: int, x: Hint| x@);
    let b = s.map(|i: int, x: Hint| x@).push(h@);
    assert forall|i: int| 0 <= i < a.len() implies a[i] == b[i] by {
        if i < s.len() {
            assert(s.push(h)[i] == s[i]);
        } else {
            assert(s.push(h)[i] == h);
        }
    }
}

/// Every error of the field fold is a type-definition error.
pub proof fn lemma_add_fields_err_kind(
    tname: Seq<char>,
    acc: Seq<FieldDefView>,
    fs: Seq<FieldDefView>,
)
    ensures
        add_fields(tname, acc, fs) matches Err(e) ==> e is TypeDefinitionInvalid,
    decreases fs.len(),
{
    if fs.len() > 0 {
        match add_field(tname, acc, fs[0]) {
            Ok(a2) => {
                lemma_add_fields_err_kind(tname, a2, fs.skip(1));
            },
            Err(_) => {},
        }
    }
}

/// Every error of the object merge is a type-definition error.
pub proof fn lemma_merge_fields_from_err_kind(
    tname: Seq<char>,
    is_interface: bool,
    acc: Seq<FieldDefView>,
    decls: Seq<TypeDefView>,
)
    ensures
        merge_fields_from(tname, is_interface, acc, decls) matches Err(e) ==> e
            is TypeDefinitionInvalid,
    decreases decls.len(),
{
    if decls.len() > 0 {
        match decls[0] {
            TypeDefView::Object(o) => {
                if o.is_interface == is_interface {
                    lemma_add_fields_err_kind(tname, acc, o.fields);
                    match add_fields(tname, acc, o.fields) {
                        Ok(a2) => {
                            lemma_merge_fields_from_err_kind(
                                tname,
                                is_interface,
                                a2,
                                decls.skip(1),
                            );
                        },
                        Err(_) => {},
                    }
                }
            },
            _ => {},
        }
    }
}

/// Every error of the enum merge is a type-definition error.
pub proof fn lemma_collect_enum_err_kind(
    tname: Seq<char>,
    acc: Seq<Seq<char>>,
    decls: Seq<TypeDefView>,
)
    ensures
        collect_enum_values(tname, acc, decls) matches Err(e) ==> e is TypeDefinitionInvalid,
    decreases decls.len(),
{
    if decls.len() > 0 {
        match decls[0] {
            TypeDefView::Enum(ev) => {
                lemma_collect_enum_err_kind(tname, dedup_append(acc, ev.values), decls.skip(1));
            },
            _ => {},
        }
    }
}

/// Every error of the union merge is a type-definition error.
pub proof fn lemma_collect_union_err_kind(
    tname: Seq<char>,
    acc: Seq<Seq<char>>,
    decls: Seq<TypeDefView>,
)
    ensures
        collect_union_members(tname, acc, decls) matches Err(e) ==> e is TypeDefinitionInvalid,
    decreases decls.len(),
{
    if decls.len() > 0 {
        match decls[0] {
            TypeDefView::Union(uv) => {
                lemma_collect_union_err_kind(tname, dedup_append(acc, uv.members), decls.skip(1));
            },
            _ => {},
        }
    }
}

/// Every per-name merge error is a type-definition error.
pub proof fn lemma_merged_type_for_err_kind(n: Seq<char>, decls: Seq<TypeDefView>)
    requires
        decls.len() > 0,
    ensures
        merged_type_for(n, decls) matches Err(e) ==> e is TypeDefinitionInvalid,
{
    match decls[0] {
        TypeDefView::Object(o0) => {
            lemma_merge_fields_from_err_kind(n, o0.is_interface, Seq::empty(), decls);
        },
        TypeDefView::Enum(_) => {
            lemma_collect_enum_err_kind(n, Seq::empty(), decls);
        },
        TypeDefView::Union(_) => {
            lemma_collect_union_err_kind(n, Seq::empty(), decls);
        },
    }
}

/// Every error the merge engine reports for declared names is a
/// type-definition error.
pub proof fn lemma_merge_errors_over_kind(names: Seq<Seq<char>>, all: Seq<TypeDefView>)
    requires
        forall|i: int| 0 <= i < names.len() ==> contains_name(decl_names(all), #[trigger] names[i]),
    ensures
        forall|i: int|
            0 <= i < merge_errors_over(names, all).len() ==> (#[trigger] merge_errors_over(
                names,
                all,
            )[i]) is TypeDefinitionInvalid,
    decreases names.len(),
{
    if names.len() > 0 {
        assert forall|i: int|
            0 <= i < names.skip(1).len() implies contains_name(
            decl_names(all),
            #[trigger] names.skip(1)[i],
        ) by {
            assert(names.skip(1)[i] == names[i + 1]);
        }
        lemma_merge_errors_over_kind(names.skip(1), all);
        let dn = decls_named(all, names[0]);
        lemma_decls_named_nonempty(all, names[0]);
        lemma_merged_type_for_err_kind(names[0], dn);
        let head: Seq<CompositionErrorView> = match merged_type_for(names[0], dn) {
            Ok(_) => Seq::empty(),
            Err(e) => seq![e],
        };
        assert(merge_errors_over(names, all) == head + merge_errors_over(names.skip(1), all));
        assert forall|i: int|
            0 <= i < merge_errors_over(names, all).len() implies (#[trigger] merge_errors_over(
            names,
            all,
        )[i]) is TypeDefinitionInvalid by {
            if i < head.len() {
                assert(merge_errors_over(names, all)[i] == head[i]);
            } else {
                assert(merge_errors_over(names, all)[i] == merge_errors_over(names.skip(1), all)[
                    i - head.len()]);
            }
        }
    }
}

/// Every name that the merge engine works through is a declared name.
pub proof fn lemma_merged_names_declared(subs: Seq<SubgraphView>)
    ensures
        forall|i: int|
            0 <= i < merged_type_names(subs).len() ==> contains_name(
                decl_names(concat_decls(subs)),
                #[trigger] merged_type_names(subs)[i],
            ),
{
    assert forall|i: int|
        0 <= i < merged_type_names(subs).len() implies contains_name(
        decl_names(concat_decls(subs)),
        #[trigger] merged_type_names(subs)[i],
    ) by {
        assert(contains_name(merged_type_names(subs), merged_type_names(subs)[i]));
        lemma_dedup_first_sub(decl_names(concat_decls(subs)), merged_type_names(subs)[i]);
    }
}

/// The raw output of the merge engine: the supergraph when every name
/// merged, and always the full error and hint lists.
pub struct MergeResult {
    pub supergraph: Option<Supergraph<Merged>>,
    pub errors: Vec<CompositionError>,
    pub hints: Vec<Hint>,
}

/// A copy of the hint list.
fn copy_hints(v: &Vec<Hint>) -> (r: Vec<Hint>)
    ensures
        r@.map(|i: int, h: Hint| h@) == v@.map(|i: int, h: Hint| h@),
{
    let mut out: Vec<Hint> = Vec::new();
    proof {
        assert(out@.map(|i: int, h: Hint| h@) =~= v@.subrange(0, 0).map(|i: int, h: Hint| h@));
    }
    let mut ix: usize = 0;
    while ix < v.len()
        invariant
            0 <= ix <= v.len(),
            out@.map(|i: int, h: Hint| h@) =~= v@.subrange(0, ix as int).map(
                |i: int, h: Hint| h@,
            ),
        decreases v.len() - ix,
    {
        let ghost prev = out@;
        let h = Hint { message: v[ix].message.clone() };
        out.push(h);
        proof {
            lemma_hint_views_push(prev, out@.last());
            assert(out@ == prev.push(out@.last()));
            assert(out@.map(|i: int, h: Hint| h@) =~= v@.subrange(0, (ix + 1) as int).map(
                |i: int, h: Hint| h@,
            ));
        }
        ix += 1;
    }
    proof {
        assert(v@.subrange(0, v@.len() as int) =~= v@);
    }
    out
}

/// The first declared query root across the subgraphs, cloned.
fn find_query_root(subgraphs: &Vec<Subgraph<Validated>>) -> (r: Option<String>)
    ensures
        crate::model::opt_string_view(r) == first_query_root(sub_views(subgraphs@)),
{
    let ghost subs = sub_views(subgraphs@);
    proof {
        assert(subs.skip(0) =~= subs);
    }
    let mut ix: usize = 0;
    while ix < subgraphs.len()
        invariant
            0 <= ix <= subgraphs.len(),
            subs == sub_views(subgraphs@),
            subs.len() == subgraphs@.len(),
            first_query_root(subs) == first_query_root(subs.skip(ix as int)),
        decreases subgraphs.len() - ix,
    {
        proof {
            lemma_skip_one(subs, ix as int);
        }
        assert(subs.skip(ix as int)[0] == subs[ix as int] && subs[ix as int] == subgraphs@[
            ix as int]@);
        match &subgraphs[ix].schema.query_root {
            Some(q) => {
                return Some(q.clone());
            },
            None => {},
        }
        ix += 1;
    }
    assert(subs.skip(subs.len() as int).len() == 0);
    None
}

/// Moves the subgraphs into routing metadata entries, in order.
#[verifier::loop_isolation(false)]
fn make_routing(subgraphs: Vec<Subgraph<Validated>>) -> (r: Vec<RoutingSubgraph>)
    ensures
        r@.map(|i: int, x: RoutingSubgraph| x@) == routing_views(sub_views(subgraphs@)),
{
    let ghost subs0 = sub_views(subgraphs@);
    let mut rest = subgraphs;
    let mut out: Vec<RoutingSubgraph> = Vec::new();
    proof {
        assert(sub_views(rest@) =~= subs0.skip(0));
        assert(out@.map(|i: int, x: RoutingSubgraph| x@) =~= routing_views(subs0).subrange(0, 0));
    }
    while rest.len() > 0
        invariant
            out@.len() + rest@.len() == subs0.len(),
            sub_views(rest@) =~= subs0.skip(out@.len() as int),
            out@.map(|i: int, x: RoutingSubgraph| x@) =~= routing_views(subs0).subrange(
                0,
                out@.len() as int,
            ),
        decreases rest.len(),
    {
        let ghost k = out@.len() as int;
        let ghost restv = rest@;
        let s = rest.remove(0);
        proof {
            assert(sub_views(restv)[0] == s@);
            assert(s@ == subs0[k]);
            let a = sub_views(rest@);
            assert(rest@ =~= restv.subrange(1, restv.len() as int));
            assert forall|i: int| 0 <= i < a.len() implies a[i] == subs0.skip(k + 1)[i] by {
                assert(rest@[i] == restv[i + 1]);
                assert(sub_views(restv)[i + 1] == restv[i + 1]@);
                assert(subs0.skip(k)[i + 1] == subs0[k + 1 + i]);
            }
            assert(sub_views(rest@) =~= subs0.skip(k + 1));
        }
        let ghost prev = out@;
        out.push(RoutingSubgraph { name: s.name, schema: s.schema });
        proof {
            assert(out@ == prev.push(out@.last()));
            assert(out@.last()@ == (RoutingSubgraphView { name: subs0[k].name, schema: subs0[
                k].schema }));
            let a = out@.map(|i: int, x: RoutingSubgraph| x@);
            let b = routing_views(subs0).subrange(0, k + 1);
            assert forall|i: int| 0 <= i < a.len() implies a[i] == b[i] by {
                if i < k {
                    assert(out@[i] == prev[i]);
                    assert(prev.map(|i: int, x: RoutingSubgraph| x@)[i] == prev[i]@);
                } else {
                    assert(out@[i] == out@.last());
                }
            }
            assert(a =~= b);
        }
    }
    proof {
        assert(routing_views(subs0).subrange(0, subs0.len() as int) =~= routing_views(subs0));
    }
    out
}

/// Merges the validated subgraphs into one supergraph schema. Every name
/// across all subgraphs is merged; every conflict becomes an error in the
/// result, and a supergraph is produced exactly when there is none.
pub fn merge_subgraph_schemas(subgraphs: Vec<Subgraph<Validated>>) -> (r: MergeResult)
    ensures
        r.errors@.map(|i: int, e: CompositionError| e@) == merge_error_views(
            sub_views(subgraphs@),
        ),
        r.hints@.map(|i: int, h: Hint| h@) == merge_hint_views(sub_views(subgraphs@)),
        merge_error_views(sub_views(subgraphs@)).len() == 0 ==> (r.supergraph matches Some(sg)
            && sg@ == (crate::supergraph::SupergraphView {
            schema: merged_schema_view(sub_views(subgraphs@)),
            hints: merge_hint_views(sub_views(subgraphs@)),
            routing: routing_views(sub_views(subgraphs@)),
        })),
        merge_error_views(sub_views(subgraphs@)).len() > 0 ==> r.supergraph is None,
{
    let ghost subs = sub_views(subgraphs@);
    let decls = all_decls(&subgraphs);
    let ghost all = decl_views(decls@);
    let names = collect_type_names(&decls);
    let ghost namesv = names_view(names@);
    proof {
        assert(namesv == merged_type_names(subs));
        assert(namesv.skip(0) =~= namesv);
    }
    let mut types: Vec<TypeDef> = Vec::new();
    let mut errors: Vec<CompositionError> = Vec::new();
    let mut hints: Vec<Hint> = Vec::new();
    proof {
        assert(types@.map(|i: int, t: TypeDef| t@) =~= Seq::<TypeDefView>::empty());
        assert(errors@.map(|i: int, e: CompositionError| e@) =~= Seq::<
            CompositionErrorView,
        >::empty());
        assert(hints@.map(|i: int, h: Hint| h@) =~= Seq::<Seq<char>>::empty());
    }
    let mut ix: usize = 0;
    while ix < names.len()
        invariant
            0 <= ix <= names.len(),
            namesv == names_view(names@),
            namesv.len() == names@.len(),
            all == decl_views(decls@),
            namesv == dedup_first(decl_names(all)),
            merge_types_over(namesv, all) == types@.map(|i: int, t: TypeDef| t@)
                + merge_types_over(namesv.skip(ix as int), all),
            merge_errors_over(namesv, all) == errors@.map(|i: int, e: CompositionError| e@)
                + merge_errors_over(namesv.skip(ix as int), all),
            merge_hints_over(namesv, all) == hints@.map(|i: int, h: Hint| h@)
                + merge_hints_over(namesv.skip(ix as int), all),
        decreases names.len() - ix,
    {
        proof {
            lemma_skip_one(namesv, ix as int);
        }
        assert(namesv.skip(ix as int)[0] == namesv[ix as int] && namesv[ix as int] == names@[
            ix as int]@);
        let dn = collect_decls_named(&decls, &names[ix]);
        proof {
            assert(contains_name(namesv, namesv[ix as int]));
            lemma_dedup_first_sub(decl_names(all), namesv[ix as int]);
            lemma_decls_named_nonempty(all, namesv[ix as int]);
            assert(decls_named(all, namesv[ix as int]).len() > 0);
            assert(dn@.map(|i: int, t: &TypeDef| t@).len() == dn@.len());
            assert(dn@.len() > 0);
        }
        let merged = merge_one_type(&names[ix], &dn);
        let ghost head_types = match merged_type_for(namesv[ix as int], decls_named(
            all,
            namesv[ix as int],
        )) {
            Ok(t) => seq![t],
            Err(_) => Seq::<TypeDefView>::empty(),
        };
        match merged {
            Ok(t) => {
                let ghost prevt = types@;
                types.push(t);
                proof {
                    lemma_typedef_views_push(prevt, types@.last());
                    assert(types@ == prevt.push(types@.last()));
                    assert(types@.map(|i: int, t: TypeDef| t@) =~= prevt.map(
                        |i: int, t: TypeDef| t@,
                    ) + head_types);
                }
                let conflict = description_conflict_exec(&dn);
                if conflict {
                    let message = String::from_str("Inconsistent descriptions for type ").concat(
                        names[ix].as_str(),
                    ).concat("; using the first");
                    let ghost prevh = hints@;
                    hints.push(Hint { message });
                    proof {
                        lemma_hint_views_push(prevh, hints@.last());
                        assert(hints@ == prevh.push(hints@.last()));
                        assert(hint_for(namesv[ix as int], decls_named(all, namesv[ix as int]))
                            == Some(description_hint_message(namesv[ix as int])));
                        assert(hints@.map(|i: int, h: Hint| h@) =~= prevh.map(
                            |i: int, h: Hint| h@,
                        ).push(description_hint_message(namesv[ix as int])));
                    }
                } else {
                    proof {
                        assert(hint_for(namesv[ix as int], decls_named(all, namesv[ix as int]))
                            is None);
                    }
                }
            },
            Err(e) => {
                let ghost preve = errors@;
                errors.push(e);
                proof {
                    lemma_error_views_push(preve, errors@.last());
                    assert(errors@ == preve.push(errors@.last()));
                    assert(hint_for(namesv[ix as int], decls_named(all, namesv[ix as int]))
                        is None);
                }
            },
        }
        proof {
            assert(merge_types_over(namesv.skip(ix as int), all) == head_types
                + merge_types_over(namesv.skip(ix + 1 as int), all));
        }
        ix += 1;
    }
    proof {
        assert(namesv.skip(namesv.len() as int).len() == 0);
        assert(types@.map(|i: int, t: TypeDef| t@)
            + Seq::<TypeDefView>::empty() =~= types@.map(|i: int, t: TypeDef| t@));
        assert(errors@.map(|i: int, e: CompositionError| e@) + Seq::<
            CompositionErrorView,
        >::empty() =~= errors@.map(|i: int, e: CompositionError| e@));
        assert(hints@.map(|i: int, h: Hint| h@) + Seq::<Seq<char>>::empty() =~= hints@.map(
            |i: int, h: Hint| h@,
        ));
    }
    let root = find_query_root(&subgraphs);
    if errors.len() == 0 {
        proof {
            assert(errors@.map(|i: int, e: CompositionError| e@).len() == 0);
        }
        let doc = SchemaDoc { query_root: root, types };
        let hints_copy = copy_hints(&hints);
        let routing = make_routing(subgraphs);
        let sg = Supergraph::with_metadata(doc, hints_copy, routing);
        MergeResult { supergraph: Some(sg), errors, hints }
    } else {
        MergeResult { supergraph: None, errors, hints }
    }
}

} // verus!
