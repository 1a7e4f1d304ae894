//! The laws of composition: properties that hold of every input, proved
//! once and for all over the specification functions that the public
//! contracts use.

use vstd::prelude::*;

use crate::composition::composed_view;
use crate::composition::first_dup;
use crate::composition::first_dup_from;
use crate::error::duplicate_name_message;
use crate::merge::collect_enum_values;
use crate::merge::collect_union_members;
use crate::merge::concat_decls;
use crate::merge::decl_names;
use crate::merge::decls_named;
use crate::merge::dedup_append;
use crate::merge::dedup_first;
use crate::merge::lemma_dedup_first_sub;
use crate::merge::merge_error_views;
use crate::merge::merge_errors_over;
use crate::merge::merge_types_over;
use crate::merge::merged_schema_view;
use crate::merge::merged_type_for;
use crate::merge::merged_type_names;
use crate::model::TypeDefView;
use crate::model::contains_name;
use crate::subgraph::SubgraphView;

verus! {

/// Whether the declaration is an enum declaring value `x`.
pub open spec fn enum_declares_value(t: TypeDefView, x: Seq<char>) -> bool {
    t matches TypeDefView::Enum(e) && contains_name(e.values, x)
}

/// Whether the declaration is a union declaring member `x`.
pub open spec fn union_declares_member(t: TypeDefView, x: Seq<char>) -> bool {
    t matches TypeDefView::Union(u) && contains_name(u.members, x)
}

/// Membership in a pushed sequence: the old members, plus the new one.
pub proof fn lemma_contains_push(s: Seq<Seq<char>>, y: Seq<char>, x: Seq<char>)
    ensures
        contains_name(s.push(y), x) <==> (contains_name(s, x) || x == y),
{
    if contains_name(s.push(y), x) {
        let i = choose|i: int| 0 <= i < s.push(y).len() && s.push(y)[i] == x;
        if i < s.len() {
            assert(s[i] == x);
        }
    }
    if contains_name(s, x) {
        let i = choose|i: int| 0 <= i < s.len() && s[i] == x;
        assert(s.push(y)[i] == x);
    }
    if x == y {
        assert(s.push(y)[s.len() as int] == x);
    }
}

/// Membership in a non-empty sequence: its head, or the rest.
pub proof fn lemma_contains_head(s: Seq<Seq<char>>, x: Seq<char>)
    requires
        s.len() > 0,
    ensures
        contains_name(s, x) <==> (s[0] == x || contains_name(s.skip(1), x)),
{
    if contains_name(s, x) {
        let i = choose|i: int| 0 <= i < s.len() && s[i] == x;
        if i > 0 {
            assert(s.skip(1)[i - 1] == x);
        }
    }
    if contains_name(s.skip(1), x) {
        let i = choose|i: int| 0 <= i < s.skip(1).len() && s.skip(1)[i] == x;
        assert(s[i + 1] == x);
    }
}

/// What survives deduplication is exactly what was there.
pub proof fn lemma_dedup_first_membership(s: Seq<Seq<char>>, x: Seq<char>)
    ensures
        contains_name(dedup_first(s), x) <==> contains_name(s, x),
    decreases s.len(),
{
    lemma_dedup_first_sub(s, x);
    if s.len() > 0 {
        let pre = s.drop_last();
        lemma_dedup_first_membership(pre, x);
        if contains_name(s, x) {
            let i = choose|i: int| 0 <= i < s.len() && s[i] == x;
            if i < s.len() - 1 {
                assert(pre[i] == x);
                if !contains_name(dedup_first(pre), s.last()) {
                    lemma_contains_push(dedup_first(pre), s.last(), x);
                }
            } else {
                assert(s.last() == x);
                if contains_name(dedup_first(pre), s.last()) {
                } else {
                    lemma_contains_push(dedup_first(pre), s.last(), x);
                }
            }
        }
    }
}

/// Membership after a deduplicating append: either side contributes.
pub proof fn lemma_dedup_append_membership(acc: Seq<Seq<char>>, vs: Seq<Seq<char>>, x: Seq<char>)
    ensures
        contains_name(dedup_append(acc, vs), x) <==> (contains_name(acc, x) || contains_name(
            vs,
            x,
        )),
    decreases vs.len(),
{
    if vs.len() > 0 {
        let acc2 = if contains_name(acc, vs[0]) {
            acc
        } else {
            acc.push(vs[0])
        };
        lemma_dedup_append_membership(acc2, vs.skip(1), x);
        lemma_contains_push(acc, vs[0], x);
        lemma_contains_head(vs, x);
    }
}

/// A successful enum merge holds exactly the values declared somewhere.
pub proof fn lemma_collect_enum_membership(
    tname: Seq<char>,
    acc: Seq<Seq<char>>,
    decls: Seq<TypeDefView>,
    x: Seq<char>,
)
    requires
        collect_enum_values(tname, acc, decls) is Ok,
    ensures
        contains_name(collect_enum_values(tname, acc, decls)->Ok_0, x) <==> (contains_name(acc, x)
            || exists|i: int| 0 <= i < decls.len() && enum_declares_value(#[trigger] decls[i], x)),
    decreases decls.len(),
{
    if decls.len() > 0 {
        let e0 = decls[0]->Enum_0;
        let acc2 = dedup_append(acc, e0.values);
        lemma_collect_enum_membership(tname, acc2, decls.skip(1), x);
        lemma_dedup_append_membership(acc, e0.values, x);
        let lhs = contains_name(collect_enum_values(tname, acc, decls)->Ok_0, x);
        if lhs {
            if !contains_name(acc, x) {
                if contains_name(e0.values, x) {
                    assert(enum_declares_value(decls[0], x));
                } else {
                    let i = choose|i: int|
                        0 <= i < decls.skip(1).len() && enum_declares_value(
                            #[trigger] decls.skip(1)[i],
                            x,
                        );
                    assert(decls[i + 1] == decls.skip(1)[i]);
                    assert(enum_declares_value(decls[i + 1], x));
                }
            }
        } else {
            if exists|i: int| 0 <= i < decls.len() && enum_declares_value(#[trigger] decls[i], x) {
                let i = choose|i: int|
                    0 <= i < decls.len() && enum_declares_value(#[trigger] decls[i], x);
                if i > 0 {
                    assert(decls.skip(1)[i - 1] == decls[i]);
                    assert(enum_declares_value(decls.skip(1)[i - 1], x));
                }
                assert(false);
            }
        }
    }
}

/// A successful union merge holds exactly the members declared somewhere.
pub proof fn lemma_collect_union_membership(
    tname: Seq<char>,
    acc: Seq<Seq<char>>,
    decls: Seq<TypeDefView>,
    x: Seq<char>,
)
    requires
        collect_union_members(tname, acc, decls) is Ok,
    ensures
        contains_name(collect_union_members(tname, acc, decls)->Ok_0, x) <==> (contains_name(
            acc,
            x,
        ) || exists|i: int| 0 <= i < decls.len() && union_declares_member(#[trigger] decls[i], x)),
    decreases decls.len(),
{
    if decls.len() > 0 {
        let u0 = decls[0]->Union_0;
        let acc2 = dedup_append(acc, u0.members);
        lemma_collect_union_membership(tname, acc2, decls.skip(1), x);
        lemma_dedup_append_membership(acc, u0.members, x);
        let lhs = contains_name(collect_union_members(tname, acc, decls)->Ok_0, x);
        if lhs {
            if !contains_name(acc, x) {
                if contains_name(u0.members, x) {
                    assert(union_declares_member(decls[0], x));
                } else {
                    let i = choose|i: int|
                        0 <= i < decls.skip(1).len() && union_declares_member(
                            #[trigger] decls.skip(1)[i],
                            x,
                        );
                    assert(decls[i + 1] == decls.skip(1)[i]);
                    assert(union_declares_member(decls[i + 1], x));
                }
            }
        } else {
            if exists|i: int| 0 <= i < decls.len() && union_declares_member(
                #[trigger] decls[i],
                x,
            ) {
                let i = choose|i: int|
                    0 <= i < decls.len() && union_declares_member(#[trigger] decls[i], x);
                if i > 0 {
                    assert(decls.skip(1)[i - 1] == decls[i]);
                    assert(union_declares_member(decls.skip(1)[i - 1], x));
                }
                assert(false);
            }
        }
    }
}

/// The declarations named `n` in a concatenation: those of each part.
pub proof fn lemma_decls_named_concat(x: Seq<TypeDefView>, y: Seq<TypeDefView>, n: Seq<char>)
    ensures
        decls_named(x + y, n) == decls_named(x, n) + decls_named(y, n),
    decreases y.len(),
{
    if y.len() == 0 {
        assert(x + y =~= x);
        assert(decls_named(x, n) + decls_named(y, n) =~= decls_named(x, n));
    } else {
        lemma_decls_named_concat(x, y.drop_last(), n);
        assert((x + y).drop_last() =~= x + y.drop_last());
        assert((x + y).last() == y.last());
        let tail: Seq<TypeDefView> = if y.last().name() == n {
            seq![y.last()]
        } else {
            Seq::empty()
        };
        assert(decls_named(x + y, n) == decls_named(x + y.drop_last(), n) + tail);
        assert(decls_named(y, n) == decls_named(y.drop_last(), n) + tail);
        assert((decls_named(x, n) + decls_named(y.drop_last(), n)) + tail =~= decls_named(x, n) + (
        decls_named(y.drop_last(), n) + tail));
    }
}

/// Whether the declaration is an object or interface of the given flavour.
pub open spec fn object_of_flavour(t: TypeDefView, is_interface: bool) -> bool {
    t matches TypeDefView::Object(o) && o.is_interface == is_interface
}

/// A successful per-name merge carries the merged name.
pub proof fn lemma_merged_type_name(n: Seq<char>, decls: Seq<TypeDefView>)
    ensures
        merged_type_for(n, decls) matches Ok(t) ==> t.name() == n,
{
}

/// With no merge errors, the merged declarations line up with the merged
/// names, one each, in order.
pub proof fn lemma_merge_types_characterize(names: Seq<Seq<char>>, all: Seq<TypeDefView>)
    requires
        merge_errors_over(names, all).len() == 0,
    ensures
        merge_types_over(names, all).len() == names.len(),
        forall|j: int|
            0 <= j < names.len() ==> merged_type_for(
                #[trigger] names[j],
                decls_named(all, names[j]),
            ) is Ok,
        forall|j: int|
            0 <= j < names.len() ==> #[trigger] merge_types_over(names, all)[j] == merged_type_for(
                names[j],
                decls_named(all, names[j]),
            )->Ok_0,
    decreases names.len(),
{
    if names.len() > 0 {
        let head_err: Seq<crate::error::CompositionErrorView> = match merged_type_for(
            names[0],
            decls_named(all, names[0]),
        ) {
            Ok(_) => Seq::empty(),
            Err(e) => seq![e],
        };
        assert(merge_errors_over(names, all) == head_err + merge_errors_over(
            names.skip(1),
            all,
        ));
        assert(head_err.len() == 0);
        assert(merge_errors_over(names.skip(1), all).len() == 0);
        lemma_merge_types_characterize(names.skip(1), all);
        let t0 = merged_type_for(names[0], decls_named(all, names[0]))->Ok_0;
        assert(merge_types_over(names, all) == seq![t0] + merge_types_over(names.skip(1), all));
        assert forall|j: int| 0 <= j < names.len() implies merged_type_for(
            #[trigger] names[j],
            decls_named(all, names[j]),
        ) is Ok by {
            if j > 0 {
                assert(names.skip(1)[j - 1] == names[j]);
            }
        }
        assert forall|j: int|
            0 <= j < names.len() implies #[trigger] merge_types_over(names, all)[j]
            == merged_type_for(names[j], decls_named(all, names[j]))->Ok_0 by {
            if j > 0 {
                assert(merge_types_over(names, all)[j] == merge_types_over(names.skip(1), all)[j
                    - 1]);
                assert(names.skip(1)[j - 1] == names[j]);
            }
        }
    }
}

/// A successful enum merge saw only enum declarations.
pub proof fn lemma_collect_enum_all_enums(
    tname: Seq<char>,
    acc: Seq<Seq<char>>,
    decls: Seq<TypeDefView>,
)
    requires
        collect_enum_values(tname, acc, decls) is Ok,
    ensures
        forall|i: int| 0 <= i < decls.len() ==> (#[trigger] decls[i]) is Enum,
    decreases decls.len(),
{
    if decls.len() > 0 {
        lemma_collect_enum_all_enums(
            tname,
            dedup_append(acc, decls[0]->Enum_0.values),
            decls.skip(1),
        );
        assert forall|i: int| 0 <= i < decls.len() implies (#[trigger] decls[i]) is Enum by {
            if i > 0 {
                assert(decls.skip(1)[i - 1] == decls[i]);
            }
        }
    }
}

/// A successful union merge saw only union declarations.
pub proof fn lemma_collect_union_all_unions(
    tname: Seq<char>,
    acc: Seq<Seq<char>>,
    decls: Seq<TypeDefView>,
)
    requires
        collect_union_members(tname, acc, decls) is Ok,
    ensures
        forall|i: int| 0 <= i < decls.len() ==> (#[trigger] decls[i]) is Union,
    decreases decls.len(),
{
    if decls.len() > 0 {
        lemma_collect_union_all_unions(
            tname,
            dedup_append(acc, decls[0]->Union_0.members),
            decls.skip(1),
        );
        assert forall|i: int| 0 <= i < decls.len() implies (#[trigger] decls[i]) is Union by {
            if i > 0 {
                assert(decls.skip(1)[i - 1] == decls[i]);
            }
        }
    }
}

/// A successful object merge saw only object declarations of one flavour.
pub proof fn lemma_merge_fields_all_objects(
    tname: Seq<char>,
    is_interface: bool,
    acc: Seq<crate::model::FieldDefView>,
    decls: Seq<TypeDefView>,
)
    requires
        crate::merge::merge_fields_from(tname, is_interface, acc, decls) is Ok,
    ensures
        forall|i: int| 0 <= i < decls.len() ==> object_of_flavour(#[trigger] decls[i], is_interface),
    decreases decls.len(),
{
    if decls.len() > 0 {
        let o0 = decls[0]->Object_0;
        match crate::merge::add_fields(tname, acc, o0.fields) {
            Ok(a2) => {
                lemma_merge_fields_all_objects(tname, is_interface, a2, decls.skip(1));
            },
            Err(_) => {},
        }
        assert forall|i: int|
            0 <= i < decls.len() implies object_of_flavour(#[trigger] decls[i], is_interface) by {
            if i > 0 {
                assert(decls.skip(1)[i - 1] == decls[i]);
                assert(object_of_flavour(decls.skip(1)[i - 1], is_interface));
            }
        }
    }
}

/// A union declaration with a given member is among the declarations of
/// its name exactly when it is among all declarations.
pub proof fn lemma_decls_named_element_union(all: Seq<TypeDefView>, n: Seq<char>, x: Seq<char>)
    ensures
        (exists|j: int|
            0 <= j < decls_named(all, n).len() && union_declares_member(
                #[trigger] decls_named(all, n)[j],
                x,
            )) <==> (exists|i: int|
            0 <= i < all.len() && (#[trigger] all[i]).name() == n && union_declares_member(
                all[i],
                x,
            )),
    decreases all.len(),
{
    if all.len() > 0 {
        let pre = all.drop_last();
        lemma_decls_named_element_union(pre, n, x);
        let tail: Seq<TypeDefView> = if all.last().name() == n {
            seq![all.last()]
        } else {
            Seq::empty()
        };
        assert(decls_named(all, n) == decls_named(pre, n) + tail);
        let dn = decls_named(all, n);
        let dp = decls_named(pre, n);
        if exists|j: int| 0 <= j < dn.len() && union_declares_member(#[trigger] dn[j], x) {
            let j = choose|j: int| 0 <= j < dn.len() && union_declares_member(#[trigger] dn[j], x);
            if j < dp.len() {
                assert(dp[j] == dn[j]);
                let i = choose|i: int|
                    0 <= i < pre.len() && (#[trigger] pre[i]).name() == n && union_declares_member(
                        pre[i],
                        x,
                    );
                assert(all[i] == pre[i]);
            } else {
                assert(dn[j] == all.last());
                assert(all[all.len() - 1].name() == n && union_declares_member(
                    all[all.len() - 1],
                    x,
                ));
            }
        }
        if exists|i: int|
            0 <= i < all.len() && (#[trigger] all[i]).name() == n && union_declares_member(
                all[i],
                x,
            ) {
            let i = choose|i: int|
                0 <= i < all.len() && (#[trigger] all[i]).name() == n && union_declares_member(
                    all[i],
                    x,
                );
            if i < all.len() - 1 {
                assert(pre[i] == all[i]);
                let j = choose|j: int|
                    0 <= j < dp.len() && union_declares_member(#[trigger] dp[j], x);
                assert(dn[j] == dp[j]);
            } else {
                assert(dn[dn.len() - 1] == all.last());
            }
        }
    }
}

/// An enum declaration with a given value is among the declarations of
/// its name exactly when it is among all declarations.
pub proof fn lemma_decls_named_element_enum(all: Seq<TypeDefView>, n: Seq<char>, x: Seq<char>)
    ensures
        (exists|j: int|
            0 <= j < decls_named(all, n).len() && enum_declares_value(
                #[trigger] decls_named(all, n)[j],
                x,
            )) <==> (exists|i: int|
            0 <= i < all.len() && (#[trigger] all[i]).name() == n && enum_declares_value(
                all[i],
                x,
            )),
    decreases all.len(),
{
    if all.len() > 0 {
        let pre = all.drop_last();
        lemma_decls_named_element_enum(pre, n, x);
        let tail: Seq<TypeDefView> = if all.last().name() == n {
            seq![all.last()]
        } else {
            Seq::empty()
        };
        assert(decls_named(all, n) == decls_named(pre, n) + tail);
        let dn = decls_named(all, n);
        let dp = decls_named(pre, n);
        if exists|j: int| 0 <= j < dn.len() && enum_declares_value(#[trigger] dn[j], x) {
            let j = choose|j: int| 0 <= j < dn.len() && enum_declares_value(#[trigger] dn[j], x);
            if j < dp.len() {
                assert(dp[j] == dn[j]);
                let i = choose|i: int|
                    0 <= i < pre.len() && (#[trigger] pre[i]).name() == n && enum_declares_value(
                        pre[i],
                        x,
                    );
                assert(all[i] == pre[i]);
            } else {
                assert(dn[j] == all.last());
                assert(all[all.len() - 1].name() == n && enum_declares_value(
                    all[all.len() - 1],
                    x,
                ));
            }
        }
        if exists|i: int|
            0 <= i < all.len() && (#[trigger] all[i]).name() == n && enum_declares_value(
                all[i],
                x,
            ) {
            let i = choose|i: int|
                0 <= i < all.len() && (#[trigger] all[i]).name() == n && enum_declares_value(
                    all[i],
                    x,
                );
            if i < all.len() - 1 {
                assert(pre[i] == all[i]);
                let j = choose|j: int| 0 <= j < dp.len() && enum_declares_value(#[trigger] dp[j], x);
                assert(dn[j] == dp[j]);
            } else {
                assert(dn[dn.len() - 1] == all.last());
            }
        }
    }
}

/// Every declaration collected for a name carries that name.
pub proof fn lemma_decls_named_names(all: Seq<TypeDefView>, n: Seq<char>)
    ensures
        forall|j: int|
            0 <= j < decls_named(all, n).len() ==> (#[trigger] decls_named(all, n)[j]).name() == n,
    decreases all.len(),
{
    if all.len() > 0 {
        let pre = all.drop_last();
        lemma_decls_named_names(pre, n);
        let tail: Seq<TypeDefView> = if all.last().name() == n {
            seq![all.last()]
        } else {
            Seq::empty()
        };
        assert(decls_named(all, n) == decls_named(pre, n) + tail);
        assert forall|j: int|
            0 <= j < decls_named(all, n).len() implies (#[trigger] decls_named(all, n)[j]).name()
            == n by {
            if j < decls_named(pre, n).len() {
                assert(decls_named(all, n)[j] == decls_named(pre, n)[j]);
            } else {
                assert(decls_named(all, n)[j] == tail[j - decls_named(pre, n).len()]);
            }
        }
    }
}

/// Union semantics: the merged schema holds a union named `n` with member
/// `x` exactly when some subgraph declared a union named `n` with member
/// `x`. No member is dropped because one subgraph omitted it, and none is
/// invented.
pub proof fn lemma_union_semantics(subs: Seq<SubgraphView>, n: Seq<char>, x: Seq<char>)
    requires
        merge_error_views(subs).len() == 0,
    ensures
        (exists|j: int|
            0 <= j < merged_schema_view(subs).types.len() && (#[trigger] merged_schema_view(
                subs,
            ).types[j]).name() == n && union_declares_member(merged_schema_view(subs).types[j], x))
            <==> (exists|i: int|
            0 <= i < concat_decls(subs).len() && (#[trigger] concat_decls(subs)[i]).name() == n
                && union_declares_member(concat_decls(subs)[i], x)),
{
    let all = concat_decls(subs);
    let names = merged_type_names(subs);
    let merged = merge_types_over(names, all);
    lemma_merge_types_characterize(names, all);
    lemma_decls_named_names(all, n);
    lemma_decls_named_element_union(all, n, x);
    crate::merge::lemma_decls_named_nonempty(all, n);
    if exists|j: int|
        0 <= j < merged.len() && (#[trigger] merged[j]).name() == n && union_declares_member(
            merged[j],
            x,
        ) {
        let j = choose|j: int|
            0 <= j < merged.len() && (#[trigger] merged[j]).name() == n && union_declares_member(
                merged[j],
                x,
            );
        let t = merged_type_for(names[j], decls_named(all, names[j]))->Ok_0;
        lemma_merged_type_name(names[j], decls_named(all, names[j]));
        assert(names[j] == n);
        let dn = decls_named(all, n);
        assert(t is Union);
        assert(dn.len() > 0 ==> t.name() == n);
        assert(dn[0] is Union) by {
            if !(dn[0] is Union) {
                assert(!(merged_type_for(n, dn) matches Ok(t2) && t2 is Union));
            }
        }
        lemma_collect_union_membership(n, Seq::empty(), dn, x);
        assert(contains_name(t->Union_0.members, x));
        let jj = choose|jj: int| 0 <= jj < dn.len() && union_declares_member(#[trigger] dn[jj], x);
    } else {
        if exists|i: int|
            0 <= i < all.len() && (#[trigger] all[i]).name() == n && union_declares_member(
                all[i],
                x,
            ) {
            let i = choose|i: int|
                0 <= i < all.len() && (#[trigger] all[i]).name() == n && union_declares_member(
                    all[i],
                    x,
                );
            assert(decl_names(all)[i] == n);
            assert(contains_name(decl_names(all), n));
            lemma_dedup_first_membership(decl_names(all), n);
            assert(contains_name(names, n));
            let j = choose|j: int| 0 <= j < names.len() && names[j] == n;
            let dn = decls_named(all, n);
            assert(dn.len() > 0);
            assert(merged_type_for(n, dn) is Ok);
            let t = merged_type_for(n, dn)->Ok_0;
            lemma_merged_type_name(n, dn);
            assert(merged[j] == t && t.name() == n);
            assert(exists|jj: int|
                0 <= jj < dn.len() && union_declares_member(#[trigger] dn[jj], x));
            let jj = choose|jj: int|
                0 <= jj < dn.len() && union_declares_member(#[trigger] dn[jj], x);
            assert(dn[0] is Union) by {
                if dn[0] is Object {
                    lemma_merge_fields_all_objects(
                        n,
                        dn[0]->Object_0.is_interface,
                        Seq::empty(),
                        dn,
                    );
                    assert(object_of_flavour(dn[jj], dn[0]->Object_0.is_interface));
                    assert(false);
                } else if dn[0] is Enum {
                    lemma_collect_enum_all_enums(n, Seq::empty(), dn);
                    assert(dn[jj] is Enum);
                    assert(false);
                }
            }
            assert(t is Union);
            lemma_collect_union_membership(n, Seq::empty(), dn, x);
            assert(contains_name(t->Union_0.members, x));
            assert(union_declares_member(merged[j], x));
            assert(false);
        }
    }
}

/// Enum semantics: the merged schema holds an enum named `n` with value
/// `x` exactly when some subgraph declared an enum named `n` with value
/// `x`. The value set is the union over all subgraphs.
pub proof fn lemma_enum_semantics(subs: Seq<SubgraphView>, n: Seq<char>, x: Seq<char>)
    requires
        merge_error_views(subs).len() == 0,
    ensures
        (exists|j: int|
            0 <= j < merged_schema_view(subs).types.len() && (#[trigger] merged_schema_view(
                subs,
            ).types[j]).name() == n && enum_declares_value(merged_schema_view(subs).types[j], x))
            <==> (exists|i: int|
            0 <= i < concat_decls(subs).len() && (#[trigger] concat_decls(subs)[i]).name() == n
                && enum_declares_value(concat_decls(subs)[i], x)),
{
    let all = concat_decls(subs);
    let names = merged_type_names(subs);
    let merged = merge_types_over(names, all);
    lemma_merge_types_characterize(names, all);
    lemma_decls_named_names(all, n);
    lemma_decls_named_element_enum(all, n, x);
    crate::merge::lemma_decls_named_nonempty(all, n);
    if exists|j: int|
        0 <= j < merged.len() && (#[trigger] merged[j]).name() == n && enum_declares_value(
            merged[j],
            x,
        ) {
        let j = choose|j: int|
            0 <= j < merged.len() && (#[trigger] merged[j]).name() == n && enum_declares_value(
                merged[j],
                x,
            );
        let t = merged_type_for(names[j], decls_named(all, names[j]))->Ok_0;
        lemma_merged_type_name(names[j], decls_named(all, names[j]));
        assert(names[j] == n);
        let dn = decls_named(all, n);
        assert(t is Enum);
        assert(dn[0] is Enum) by {
            if !(dn[0] is Enum) {
                assert(!(merged_type_for(n, dn) matches Ok(t2) && t2 is Enum));
            }
        }
        lemma_collect_enum_membership(n, Seq::empty(), dn, x);
        assert(contains_name(t->Enum_0.values, x));
        let jj = choose|jj: int| 0 <= jj < dn.len() && enum_declares_value(#[trigger] dn[jj], x);
    } else {
        if exists|i: int|
            0 <= i < all.len() && (#[trigger] all[i]).name() == n && enum_declares_value(
                all[i],
                x,
            ) {
            let i = choose|i: int|
                0 <= i < all.len() && (#[trigger] all[i]).name() == n && enum_declares_value(
                    all[i],
                    x,
                );
            assert(decl_names(all)[i] == n);
            assert(contains_name(decl_names(all), n));
            lemma_dedup_first_membership(decl_names(all), n);
            assert(contains_name(names, n));
            let j = choose|j: int| 0 <= j < names.len() && names[j] == n;
            let dn = decls_named(all, n);
            assert(dn.len() > 0);
            assert(merged_type_for(n, dn) is Ok);
            let t = merged_type_for(n, dn)->Ok_0;
            lemma_merged_type_name(n, dn);
            assert(merged[j] == t && t.name() == n);
            assert(exists|jj: int| 0 <= jj < dn.len() && enum_declares_value(#[trigger] dn[jj], x));
            let jj = choose|jj: int|
                0 <= jj < dn.len() && enum_declares_value(#[trigger] dn[jj], x);
            assert(dn[0] is Enum) by {
                if dn[0] is Object {
                    lemma_merge_fields_all_objects(
                        n,
                        dn[0]->Object_0.is_interface,
                        Seq::empty(),
                        dn,
                    );
                    assert(object_of_flavour(dn[jj], dn[0]->Object_0.is_interface));
                    assert(false);
                } else if dn[0] is Union {
                    lemma_collect_union_all_unions(n, Seq::empty(), dn);
                    assert(dn[jj] is Union);
                    assert(false);
                }
            }
            assert(t is Enum);
            lemma_collect_enum_membership(n, Seq::empty(), dn, x);
            assert(contains_name(t->Enum_0.values, x));
            assert(enum_declares_value(merged[j], x));
            assert(false);
        }
    }
}

// ------------------------------------------------------------------
// Federation-directive stripping.
// ------------------------------------------------------------------
/// Adding a field keeps the merged list free of federation markers.
pub proof fn lemma_add_field_stripped(
    tname: Seq<char>,
    acc: Seq<crate::model::FieldDefView>,
    f: crate::model::FieldDefView,
)
    requires
        crate::merge::all_stripped(acc),
        crate::merge::add_field(tname, acc, f) is Ok,
    ensures
        crate::merge::all_stripped(crate::merge::add_field(tname, acc, f)->Ok_0),
{
    let r = crate::merge::add_field(tname, acc, f)->Ok_0;
    match crate::merge::first_field_index(acc, f.name) {
        Some(j) => {
            crate::merge::lemma_first_field_index(acc, f.name);
            assert forall|i: int| 0 <= i < r.len() implies crate::merge::is_stripped(
                #[trigger] r[i],
            ) by {
                if i != j {
                    assert(r[i] == acc[i]);
                } else {
                    assert(crate::merge::is_stripped(acc[j]));
                }
            }
        },
        None => {
            assert forall|i: int| 0 <= i < r.len() implies crate::merge::is_stripped(
                #[trigger] r[i],
            ) by {
                if i < acc.len() {
                    assert(r[i] == acc[i]);
                } else {
                    assert(r[i] == crate::merge::strip_field(f));
                }
            }
        },
    }
}

/// Folding a declaration's fields keeps the merged list stripped.
pub proof fn lemma_add_fields_stripped(
    tname: Seq<char>,
    acc: Seq<crate::model::FieldDefView>,
    fs: Seq<crate::model::FieldDefView>,
)
    requires
        crate::merge::all_stripped(acc),
        crate::merge::add_fields(tname, acc, fs) is Ok,
    ensures
        crate::merge::all_stripped(crate::merge::add_fields(tname, acc, fs)->Ok_0),
    decreases fs.len(),
{
    if fs.len() > 0 {
        lemma_add_field_stripped(tname, acc, fs[0]);
        let a2 = crate::merge::add_field(tname, acc, fs[0])->Ok_0;
        lemma_add_fields_stripped(tname, a2, fs.skip(1));
    }
}

/// Merging the declarations of an object name yields a stripped list.
pub proof fn lemma_merge_fields_stripped(
    tname: Seq<char>,
    is_interface: bool,
    acc: Seq<crate::model::FieldDefView>,
    decls: Seq<TypeDefView>,
)
    requires
        crate::merge::all_stripped(acc),
        crate::merge::merge_fields_from(tname, is_interface, acc, decls) is Ok,
    ensures
        crate::merge::all_stripped(
            crate::merge::merge_fields_from(tname, is_interface, acc, decls)->Ok_0,
        ),
    decreases decls.len(),
{
    if decls.len() > 0 {
        let o = decls[0]->Object_0;
        lemma_add_fields_stripped(tname, acc, o.fields);
        let a2 = crate::merge::add_fields(tname, acc, o.fields)->Ok_0;
        lemma_merge_fields_stripped(tname, is_interface, a2, decls.skip(1));
    }
}

/// Federation-directive stripping: no object or interface type of the
/// merged schema carries a `@key`, and none of its fields carries
/// `@external`, `@shareable`, `@requires` or `@provides`. The routing
/// metadata, not the client-facing schema, keeps that information.
pub proof fn lemma_merged_schema_stripped(subs: Seq<SubgraphView>)
    requires
        merge_error_views(subs).len() == 0,
    ensures
        forall|j: int|
            0 <= j < merged_schema_view(subs).types.len() ==> ((#[trigger] merged_schema_view(
                subs,
            ).types[j]) matches TypeDefView::Object(o) ==> o.keys.len() == 0
                && crate::merge::all_stripped(o.fields)),
{
    let all = concat_decls(subs);
    let names = merged_type_names(subs);
    let merged = merge_types_over(names, all);
    lemma_merge_types_characterize(names, all);
    assert forall|j: int|
        0 <= j < merged.len() implies ((#[trigger] merged[j]) matches TypeDefView::Object(o)
        ==> o.keys.len() == 0 && crate::merge::all_stripped(o.fields)) by {
        let t = merged_type_for(names[j], decls_named(all, names[j]))->Ok_0;
        assert(merged[j] == t);
        if t is Object {
            let dn = decls_named(all, names[j]);
            let o0 = dn[0]->Object_0;
            lemma_merge_fields_stripped(names[j], o0.is_interface, Seq::empty(), dn);
        }
    }
}

// ------------------------------------------------------------------
// Description merge.
// ------------------------------------------------------------------
/// Whether a declaration carries a non-empty description.
pub open spec fn has_nonempty_description(t: TypeDefView) -> bool {
    t.description() matches Some(d) && d.len() > 0
}

/// Whether a declaration carries exactly the description `d`.
pub open spec fn has_description(t: TypeDefView, d: Seq<char>) -> bool {
    t.description() == Some(d)
}

/// The chosen description is one that was attached, and is non-empty.
pub proof fn lemma_first_description_attached(decls: Seq<TypeDefView>)
    ensures
        crate::merge::first_description(decls) matches Some(d) ==> d.len() > 0 && exists|i: int|
            0 <= i < decls.len() && has_description(#[trigger] decls[i], d),
    decreases decls.len(),
{
    if decls.len() > 0 {
        lemma_first_description_attached(decls.skip(1));
        let fd = crate::merge::first_description(decls);
        if fd is Some {
            let d = fd->0;
            match decls[0].description() {
                Some(e) => {
                    if e.len() > 0 {
                        assert(has_description(decls[0], d));
                    } else {
                        let i = choose|i: int|
                            0 <= i < decls.skip(1).len() && has_description(
                                #[trigger] decls.skip(1)[i],
                                d,
                            );
                        assert(decls[i + 1] == decls.skip(1)[i]);
                        assert(has_description(decls[i + 1], d));
                    }
                },
                None => {
                    let i = choose|i: int|
                        0 <= i < decls.skip(1).len() && has_description(
                            #[trigger] decls.skip(1)[i],
                            d,
                        );
                    assert(decls[i + 1] == decls.skip(1)[i]);
                    assert(has_description(decls[i + 1], d));
                },
            }
        }
    }
}

/// If any declaration has a non-empty description, one is chosen.
pub proof fn lemma_first_description_exists(decls: Seq<TypeDefView>)
    requires
        exists|i: int| 0 <= i < decls.len() && has_nonempty_description(#[trigger] decls[i]),
    ensures
        crate::merge::first_description(decls) is Some,
    decreases decls.len(),
{
    let i = choose|i: int| 0 <= i < decls.len() && has_nonempty_description(#[trigger] decls[i]);
    if decls[0].description() matches Some(e) && e.len() > 0 {
    } else {
        assert(i > 0);
        assert(decls.skip(1)[i - 1] == decls[i]);
        assert(has_nonempty_description(decls.skip(1)[i - 1]));
        lemma_first_description_exists(decls.skip(1));
    }
}

/// A declaration named `n` with description `d` is among the declarations
/// of `n` exactly when it is among all declarations.
pub proof fn lemma_decls_named_element_desc(all: Seq<TypeDefView>, n: Seq<char>, d: Seq<char>)
    ensures
        (exists|j: int|
            0 <= j < decls_named(all, n).len() && has_description(
                #[trigger] decls_named(all, n)[j],
                d,
            )) <==> (exists|i: int|
            0 <= i < all.len() && (#[trigger] all[i]).name() == n && has_description(all[i], d)),
    decreases all.len(),
{
    if all.len() > 0 {
        let pre = all.drop_last();
        lemma_decls_named_element_desc(pre, n, d);
        let tail: Seq<TypeDefView> = if all.last().name() == n {
            seq![all.last()]
        } else {
            Seq::empty()
        };
        assert(decls_named(all, n) == decls_named(pre, n) + tail);
        let dn = decls_named(all, n);
        let dp = decls_named(pre, n);
        if exists|j: int| 0 <= j < dn.len() && has_description(#[trigger] dn[j], d) {
            let j = choose|j: int| 0 <= j < dn.len() && has_description(#[trigger] dn[j], d);
            if j < dp.len() {
                assert(dp[j] == dn[j]);
                let i = choose|i: int|
                    0 <= i < pre.len() && (#[trigger] pre[i]).name() == n && has_description(
                        pre[i],
                        d,
                    );
                assert(all[i] == pre[i]);
            } else {
                assert(dn[j] == all.last());
                assert(all[all.len() - 1].name() == n && has_description(all[all.len() - 1], d));
            }
        }
        if exists|i: int|
            0 <= i < all.len() && (#[trigger] all[i]).name() == n && has_description(all[i], d) {
            let i = choose|i: int|
                0 <= i < all.len() && (#[trigger] all[i]).name() == n && has_description(
                    all[i],
                    d,
                );
            if i < all.len() - 1 {
                assert(pre[i] == all[i]);
                let j = choose|j: int| 0 <= j < dp.len() && has_description(#[trigger] dp[j], d);
                assert(dn[j] == dp[j]);
            } else {
                assert(dn[dn.len() - 1] == all.last());
            }
        }
    }
}

/// The merged declaration's description is the chosen one.
pub proof fn lemma_merged_type_description(n: Seq<char>, decls: Seq<TypeDefView>)
    ensures
        merged_type_for(n, decls) matches Ok(t) ==> t.description() == crate::merge::first_description(decls),
{
}

/// Description merge: when declarations of `n` attach descriptions in
/// several subgraphs, the merged declaration carries exactly one non-null
/// description — one of those attached, never a concatenation and never
/// null.
pub proof fn lemma_description_merge(subs: Seq<SubgraphView>, n: Seq<char>)
    requires
        merge_error_views(subs).len() == 0,
        exists|i: int|
            0 <= i < concat_decls(subs).len() && (#[trigger] concat_decls(subs)[i]).name() == n
                && has_nonempty_description(concat_decls(subs)[i]),
    ensures
        exists|j: int|
            0 <= j < merged_schema_view(subs).types.len() && (#[trigger] merged_schema_view(
                subs,
            ).types[j]).name() == n && (merged_schema_view(subs).types[j].description()
                matches Some(d) && d.len() > 0 && exists|i: int|
                0 <= i < concat_decls(subs).len() && (#[trigger] concat_decls(subs)[i]).name() == n
                    && has_description(concat_decls(subs)[i], d)),
{
    let all = concat_decls(subs);
    let names = merged_type_names(subs);
    let merged = merge_types_over(names, all);
    lemma_merge_types_characterize(names, all);
    let i0 = choose|i: int|
        0 <= i < all.len() && (#[trigger] all[i]).name() == n && has_nonempty_description(all[i]);
    assert(decl_names(all)[i0] == n);
    lemma_dedup_first_membership(decl_names(all), n);
    assert(contains_name(names, n));
    let j = choose|j: int| 0 <= j < names.len() && names[j] == n;
    let dn = decls_named(all, n);
    crate::merge::lemma_decls_named_nonempty(all, n);
    let t = merged_type_for(n, dn)->Ok_0;
    lemma_merged_type_name(n, dn);
    lemma_merged_type_description(n, dn);
    assert(merged[j] == t && t.name() == n);
    // Some declaration of `n` has a non-empty description, so one is chosen.
    assert(exists|k: int| 0 <= k < dn.len() && has_nonempty_description(#[trigger] dn[k])) by {
        lemma_decls_named_element_desc(all, n, all[i0].description()->0);
        assert(has_description(all[i0], all[i0].description()->0));
        let k = choose|k: int|
            0 <= k < dn.len() && has_description(#[trigger] dn[k], all[i0].description()->0);
        assert(has_nonempty_description(dn[k]));
    }
    lemma_first_description_exists(dn);
    lemma_first_description_attached(dn);
    let d = crate::merge::first_description(dn)->0;
    assert(t.description() == Some(d) && d.len() > 0);
    let k = choose|k: int| 0 <= k < dn.len() && has_description(#[trigger] dn[k], d);
    lemma_decls_named_element_desc(all, n, d);
    let i = choose|i: int|
        0 <= i < all.len() && (#[trigger] all[i]).name() == n && has_description(all[i], d);
    assert(merged_schema_view(subs).types == merged);
    assert(merged_schema_view(subs).types[j].name() == n);
    assert(merged_schema_view(subs).types[j].description() == Some(d));
    assert(d.len() > 0);
    assert(exists|i2: int|
        0 <= i2 < concat_decls(subs).len() && (#[trigger] concat_decls(subs)[i2]).name() == n
            && has_description(concat_decls(subs)[i2], d));
    assert(merged_schema_view(subs).types[j].description() matches Some(dd) && dd.len() > 0
        && exists|i2: int|
        0 <= i2 < concat_decls(subs).len() && (#[trigger] concat_decls(subs)[i2]).name() == n
            && has_description(concat_decls(subs)[i2], dd));
}

// ------------------------------------------------------------------
// Duplicate subgraph names.
// ------------------------------------------------------------------
/// A clean scan means no duplicate pair from position `k` on.
pub proof fn lemma_first_dup_from_none(names: Seq<Seq<char>>, k: int)
    requires
        0 <= k <= names.len(),
        first_dup_from(names, k) is None,
    ensures
        forall|i: int, j: int| 0 <= i < j < names.len() && j >= k ==> names[i] != names[j],
    decreases names.len() - k,
{
    if k < names.len() {
        lemma_first_dup_from_none(names, k + 1);
        assert forall|i: int, j: int|
            0 <= i < j < names.len() && j >= k implies names[i] != names[j] by {
            if j == k {
                if names[i] == names[j] {
                    assert(names.subrange(0, k)[i] == names[j]);
                    assert(contains_name(names.subrange(0, k), names[k]));
                }
            }
        }
    }
}

/// Two subgraphs with one name are always caught: whenever two positions
/// carry the same name, the duplicate scan reports one, and the reported
/// message is `Duplicate subgraph name: ` followed by that name.
pub proof fn lemma_duplicate_names_detected(names: Seq<Seq<char>>, i: int, j: int)
    requires
        0 <= i < j < names.len(),
        names[i] == names[j],
    ensures
        first_dup(names) matches Some(k) && 0 <= k < names.len() && duplicate_name_message(
            names[k],
        ) == "Duplicate subgraph name: "@ + names[k],
{
    if first_dup(names) is None {
        lemma_first_dup_from_none(names, 0);
        assert(false);
    }
    let k = first_dup(names)->0;
    lemma_first_dup_some_in_range(names, 0);
}

/// A reported duplicate position is in range.
pub proof fn lemma_first_dup_some_in_range(names: Seq<Seq<char>>, k: int)
    requires
        0 <= k <= names.len(),
    ensures
        first_dup_from(names, k) matches Some(j) ==> k <= j < names.len(),
    decreases names.len() - k,
{
    if k < names.len() {
        lemma_first_dup_some_in_range(names, k + 1);
    }
}

// ------------------------------------------------------------------
// Order independence.
// ------------------------------------------------------------------
/// Whether the declaration is an object or interface declaring a field
/// named `f`.
pub open spec fn object_declares_field(t: TypeDefView, f: Seq<char>) -> bool {
    t matches TypeDefView::Object(o) && contains_name(
        crate::subgraph::field_names_of(o.fields),
        f,
    )
}

/// Adding a field adds exactly its name to the merged name set.
pub proof fn lemma_add_field_names(
    tname: Seq<char>,
    acc: Seq<crate::model::FieldDefView>,
    f: crate::model::FieldDefView,
    x: Seq<char>,
)
    requires
        crate::merge::add_field(tname, acc, f) is Ok,
    ensures
        contains_name(
            crate::subgraph::field_names_of(crate::merge::add_field(tname, acc, f)->Ok_0),
            x,
        ) <==> (contains_name(crate::subgraph::field_names_of(acc), x) || x == f.name),
{
    let r = crate::merge::add_field(tname, acc, f)->Ok_0;
    crate::merge::lemma_first_field_index(acc, f.name);
    match crate::merge::first_field_index(acc, f.name) {
        Some(j) => {
            assert(crate::subgraph::field_names_of(r) =~= crate::subgraph::field_names_of(acc));
            assert(crate::subgraph::field_names_of(acc)[j] == f.name);
        },
        None => {
            assert(crate::subgraph::field_names_of(r) =~= crate::subgraph::field_names_of(
                acc,
            ).push(f.name));
            lemma_contains_push(crate::subgraph::field_names_of(acc), f.name, x);
        },
    }
}

/// Folding a declaration's fields adds exactly their names.
pub proof fn lemma_add_fields_names(
    tname: Seq<char>,
    acc: Seq<crate::model::FieldDefView>,
    fs: Seq<crate::model::FieldDefView>,
    x: Seq<char>,
)
    requires
        crate::merge::add_fields(tname, acc, fs) is Ok,
    ensures
        contains_name(
            crate::subgraph::field_names_of(crate::merge::add_fields(tname, acc, fs)->Ok_0),
            x,
        ) <==> (contains_name(crate::subgraph::field_names_of(acc), x) || contains_name(
            crate::subgraph::field_names_of(fs),
            x,
        )),
    decreases fs.len(),
{
    if fs.len() == 0 {
    } else {
        let a2 = crate::merge::add_field(tname, acc, fs[0])->Ok_0;
        lemma_add_field_names(tname, acc, fs[0], x);
        lemma_add_fields_names(tname, a2, fs.skip(1), x);
        assert(crate::subgraph::field_names_of(fs.skip(1)) =~= crate::subgraph::field_names_of(
            fs,
        ).skip(1));
        lemma_contains_head(crate::subgraph::field_names_of(fs), x);
        assert(crate::subgraph::field_names_of(fs)[0] == fs[0].name);
    }
}

/// A merged object's field names are exactly those declared somewhere.
pub proof fn lemma_merge_fields_names(
    tname: Seq<char>,
    is_interface: bool,
    acc: Seq<crate::model::FieldDefView>,
    decls: Seq<TypeDefView>,
    x: Seq<char>,
)
    requires
        crate::merge::merge_fields_from(tname, is_interface, acc, decls) is Ok,
    ensures
        contains_name(
            crate::subgraph::field_names_of(
                crate::merge::merge_fields_from(tname, is_interface, acc, decls)->Ok_0,
            ),
            x,
        ) <==> (contains_name(crate::subgraph::field_names_of(acc), x) || exists|i: int|
            0 <= i < decls.len() && object_declares_field(#[trigger] decls[i], x)),
    decreases decls.len(),
{
    if decls.len() > 0 {
        let o0 = decls[0]->Object_0;
        let a2 = crate::merge::add_fields(tname, acc, o0.fields)->Ok_0;
        lemma_add_fields_names(tname, acc, o0.fields, x);
        lemma_merge_fields_names(tname, is_interface, a2, decls.skip(1), x);
        let lhs = contains_name(
            crate::subgraph::field_names_of(
                crate::merge::merge_fields_from(tname, is_interface, acc, decls)->Ok_0,
            ),
            x,
        );
        if lhs {
            if !contains_name(crate::subgraph::field_names_of(acc), x) {
                if contains_name(crate::subgraph::field_names_of(o0.fields), x) {
                    assert(object_declares_field(decls[0], x));
                } else {
                    let i = choose|i: int|
                        0 <= i < decls.skip(1).len() && object_declares_field(
                            #[trigger] decls.skip(1)[i],
                            x,
                        );
                    assert(decls[i + 1] == decls.skip(1)[i]);
                    assert(object_declares_field(decls[i + 1], x));
                }
            }
        } else {
            if exists|i: int| 0 <= i < decls.len() && object_declares_field(#[trigger] decls[i], x) {
                let i = choose|i: int|
                    0 <= i < decls.len() && object_declares_field(#[trigger] decls[i], x);
                if i > 0 {
                    assert(decls.skip(1)[i - 1] == decls[i]);
                    assert(object_declares_field(decls.skip(1)[i - 1], x));
                }
                assert(false);
            }
        }
    }
}

/// Field semantics: the merged schema holds a type named `n` exposing a
/// field named `f` exactly when some subgraph declared `n` with such a
/// field.
pub proof fn lemma_field_semantics(subs: Seq<SubgraphView>, n: Seq<char>, f: Seq<char>)
    requires
        merge_error_views(subs).len() == 0,
    ensures
        (exists|j: int|
            0 <= j < merged_schema_view(subs).types.len() && (#[trigger] merged_schema_view(
                subs,
            ).types[j]).name() == n && object_declares_field(merged_schema_view(subs).types[j], f))
            <==> (exists|i: int|
            0 <= i < concat_decls(subs).len() && (#[trigger] concat_decls(subs)[i]).name() == n
                && object_declares_field(concat_decls(subs)[i], f)),
{
    let all = concat_decls(subs);
    let names = merged_type_names(subs);
    let merged = merge_types_over(names, all);
    lemma_merge_types_characterize(names, all);
    lemma_decls_named_names(all, n);
    lemma_decls_named_element_object_field(all, n, f);
    crate::merge::lemma_decls_named_nonempty(all, n);
    if exists|j: int|
        0 <= j < merged.len() && (#[trigger] merged[j]).name() == n && object_declares_field(
            merged[j],
            f,
        ) {
        let j = choose|j: int|
            0 <= j < merged.len() && (#[trigger] merged[j]).name() == n && object_declares_field(
                merged[j],
                f,
            );
        let t = merged_type_for(names[j], decls_named(all, names[j]))->Ok_0;
        lemma_merged_type_name(names[j], decls_named(all, names[j]));
        assert(names[j] == n);
        let dn = decls_named(all, n);
        assert(t is Object);
        assert(dn[0] is Object) by {
            if !(dn[0] is Object) {
                assert(!(merged_type_for(n, dn) matches Ok(t2) && t2 is Object));
            }
        }
        lemma_merge_fields_names(n, dn[0]->Object_0.is_interface, Seq::empty(), dn, f);
        let jj = choose|jj: int| 0 <= jj < dn.len() && object_declares_field(#[trigger] dn[jj], f);
    } else {
        if exists|i: int|
            0 <= i < all.len() && (#[trigger] all[i]).name() == n && object_declares_field(
                all[i],
                f,
            ) {
            let i = choose|i: int|
                0 <= i < all.len() && (#[trigger] all[i]).name() == n && object_declares_field(
                    all[i],
                    f,
                );
            assert(decl_names(all)[i] == n);
            lemma_dedup_first_membership(decl_names(all), n);
            let j = choose|j: int| 0 <= j < names.len() && names[j] == n;
            let dn = decls_named(all, n);
            assert(dn.len() > 0);
            let t = merged_type_for(n, dn)->Ok_0;
            lemma_merged_type_name(n, dn);
            assert(merged[j] == t && t.name() == n);
            let jj = choose|jj: int|
                0 <= jj < dn.len() && object_declares_field(#[trigger] dn[jj], f);
            assert(dn[0] is Object) by {
                if dn[0] is Enum {
                    lemma_collect_enum_all_enums(n, Seq::empty(), dn);
                    assert(dn[jj] is Enum);
                    assert(false);
                } else if dn[0] is Union {
                    lemma_collect_union_all_unions(n, Seq::empty(), dn);
                    assert(dn[jj] is Union);
                    assert(false);
                }
            }
            assert(t is Object);
            lemma_merge_fields_names(n, dn[0]->Object_0.is_interface, Seq::empty(), dn, f);
            assert(object_declares_field(merged[j], f));
            assert(false);
        }
    }
}

/// An object declaration with a given field is among the declarations of
/// its name exactly when it is among all declarations.
pub proof fn lemma_decls_named_element_object_field(
    all: Seq<TypeDefView>,
    n: Seq<char>,
    f: Seq<char>,
)
    ensures
        (exists|j: int|
            0 <= j < decls_named(all, n).len() && object_declares_field(
                #[trigger] decls_named(all, n)[j],
                f,
            )) <==> (exists|i: int|
            0 <= i < all.len() && (#[trigger] all[i]).name() == n && object_declares_field(
                all[i],
                f,
            )),
    decreases all.len(),
{
    if all.len() > 0 {
        let pre = all.drop_last();
        lemma_decls_named_element_object_field(pre, n, f);
        let tail: Seq<TypeDefView> = if all.last().name() == n {
            seq![all.last()]
        } else {
            Seq::empty()
        };
        assert(decls_named(all, n) == decls_named(pre, n) + tail);
        let dn = decls_named(all, n);
        let dp = decls_named(pre, n);
        if exists|j: int| 0 <= j < dn.len() && object_declares_field(#[trigger] dn[j], f) {
            let j = choose|j: int| 0 <= j < dn.len() && object_declares_field(#[trigger] dn[j], f);
            if j < dp.len() {
                assert(dp[j] == dn[j]);
                let i = choose|i: int|
                    0 <= i < pre.len() && (#[trigger] pre[i]).name() == n && object_declares_field(
                        pre[i],
                        f,
                    );
                assert(all[i] == pre[i]);
            } else {
                assert(dn[j] == all.last());
                assert(all[all.len() - 1].name() == n && object_declares_field(
                    all[all.len() - 1],
                    f,
                ));
            }
        }
        if exists|i: int|
            0 <= i < all.len() && (#[trigger] all[i]).name() == n && object_declares_field(
                all[i],
                f,
            ) {
            let i = choose|i: int|
                0 <= i < all.len() && (#[trigger] all[i]).name() == n && object_declares_field(
                    all[i],
                    f,
                );
            if i < all.len() - 1 {
                assert(pre[i] == all[i]);
                let j = choose|j: int|
                    0 <= j < dp.len() && object_declares_field(#[trigger] dp[j], f);
                assert(dn[j] == dp[j]);
            } else {
                assert(dn[dn.len() - 1] == all.last());
            }
        }
    }
}

/// The declarations of two subgraphs, in either order.
pub proof fn lemma_concat_two(a: SubgraphView, b: SubgraphView)
    ensures
        concat_decls(seq![a, b]) == a.schema.types + b.schema.types,
{
    let s = seq![a, b];
    assert(s.drop_last() =~= seq![a]);
    assert(s.last() == b);
    assert(seq![a].drop_last() =~= Seq::<SubgraphView>::empty());
    assert(concat_decls(seq![a]) == concat_decls(Seq::empty()) + a.schema.types);
    assert(concat_decls(Seq::<SubgraphView>::empty()) + a.schema.types =~= a.schema.types);
}

/// Order independence for conflict-free inputs: composing `[A, B]` and
/// `[B, A]` yields the same merged type set, the same field set of every
/// object type, the same value set of every enum, and the same member set
/// of every union.
pub proof fn lemma_merge_order_independent(a: SubgraphView, b: SubgraphView)
    requires
        merge_error_views(seq![a, b]).len() == 0,
        merge_error_views(seq![b, a]).len() == 0,
    ensures
        forall|n: Seq<char>|
            contains_name(decl_names(merged_schema_view(seq![a, b]).types), n) <==> contains_name(
                decl_names(merged_schema_view(seq![b, a]).types),
                n,
            ),
        forall|n: Seq<char>, x: Seq<char>|
            merged_declares(seq![a, b], n, x, 0) <==> merged_declares(seq![b, a], n, x, 0),
        forall|n: Seq<char>, x: Seq<char>|
            merged_declares(seq![a, b], n, x, 1) <==> merged_declares(seq![b, a], n, x, 1),
        forall|n: Seq<char>, x: Seq<char>|
            merged_declares(seq![a, b], n, x, 2) <==> merged_declares(seq![b, a], n, x, 2),
{
    let s1 = seq![a, b];
    let s2 = seq![b, a];
    lemma_concat_two(a, b);
    lemma_concat_two(b, a);
    let all1 = concat_decls(s1);
    let all2 = concat_decls(s2);
    assert forall|n: Seq<char>|
        contains_name(decl_names(merged_schema_view(s1).types), n) <==> contains_name(
        decl_names(merged_schema_view(s2).types),
        n,
    ) by {
        lemma_merge_types_characterize(merged_type_names(s1), all1);
        lemma_merge_types_characterize(merged_type_names(s2), all2);
        lemma_merged_names_line_up(s1, n);
        lemma_merged_names_line_up(s2, n);
        if contains_name(decl_names(all1), n) {
            let i = choose|i: int| 0 <= i < decl_names(all1).len() && decl_names(all1)[i] == n;
            if i < a.schema.types.len() {
                assert(all2[b.schema.types.len() + i] == all1[i]);
                assert(decl_names(all2)[b.schema.types.len() + i] == n);
            } else {
                assert(all2[i - a.schema.types.len()] == all1[i]);
                assert(decl_names(all2)[i - a.schema.types.len()] == n);
            }
        }
        if contains_name(decl_names(all2), n) {
            let i = choose|i: int| 0 <= i < decl_names(all2).len() && decl_names(all2)[i] == n;
            if i < b.schema.types.len() {
                assert(all1[a.schema.types.len() + i] == all2[i]);
                assert(decl_names(all1)[a.schema.types.len() + i] == n);
            } else {
                assert(all1[i - b.schema.types.len()] == all2[i]);
                assert(decl_names(all1)[i - b.schema.types.len()] == n);
            }
        }
    }
    assert forall|n: Seq<char>, x: Seq<char>|
        merged_declares(s1, n, x, 0) <==> merged_declares(s2, n, x, 0) by {
        lemma_union_semantics(s1, n, x);
        lemma_union_semantics(s2, n, x);
        lemma_declared_sym(a, b, n, x, 0);
    }
    assert forall|n: Seq<char>, x: Seq<char>|
        merged_declares(s1, n, x, 1) <==> merged_declares(s2, n, x, 1) by {
        lemma_enum_semantics(s1, n, x);
        lemma_enum_semantics(s2, n, x);
        lemma_declared_sym(a, b, n, x, 1);
    }
    assert forall|n: Seq<char>, x: Seq<char>|
        merged_declares(s1, n, x, 2) <==> merged_declares(s2, n, x, 2) by {
        lemma_field_semantics(s1, n, x);
        lemma_field_semantics(s2, n, x);
        lemma_declared_sym(a, b, n, x, 2);
    }
}

/// What a merged schema exposes under name `n`: a union member, an enum
/// value, or an object field, by selector.
pub open spec fn merged_declares(subs: Seq<SubgraphView>, n: Seq<char>, x: Seq<char>, which: int) -> bool {
    exists|j: int|
        0 <= j < merged_schema_view(subs).types.len() && (#[trigger] merged_schema_view(
            subs,
        ).types[j]).name() == n && declares(merged_schema_view(subs).types[j], x, which)
}

/// What a declaration offers under selector `which`.
pub open spec fn declares(t: TypeDefView, x: Seq<char>, which: int) -> bool {
    if which == 0 {
        union_declares_member(t, x)
    } else if which == 1 {
        enum_declares_value(t, x)
    } else {
        object_declares_field(t, x)
    }
}

/// Whether any declaration of the subgraphs offers `x` under name `n`.
pub open spec fn some_decl_declares(
    subs: Seq<SubgraphView>,
    n: Seq<char>,
    x: Seq<char>,
    which: int,
) -> bool {
    exists|i: int|
        0 <= i < concat_decls(subs).len() && (#[trigger] concat_decls(subs)[i]).name() == n
            && declares(concat_decls(subs)[i], x, which)
}

/// Declaring is symmetric in the order of two subgraphs.
pub proof fn lemma_declared_sym(a: SubgraphView, b: SubgraphView, n: Seq<char>, x: Seq<char>, which: int)
    ensures
        some_decl_declares(seq![a, b], n, x, which) <==> some_decl_declares(
            seq![b, a],
            n,
            x,
            which,
        ),
{
    lemma_concat_two(a, b);
    lemma_concat_two(b, a);
    let all1 = concat_decls(seq![a, b]);
    let all2 = concat_decls(seq![b, a]);
    if some_decl_declares(seq![a, b], n, x, which) {
        let i = choose|i: int|
            0 <= i < all1.len() && (#[trigger] all1[i]).name() == n && declares(all1[i], x, which);
        if i < a.schema.types.len() {
            assert(all2[b.schema.types.len() + i] == all1[i]);
        } else {
            assert(all2[i - a.schema.types.len()] == all1[i]);
        }
    }
    if some_decl_declares(seq![b, a], n, x, which) {
        let i = choose|i: int|
            0 <= i < all2.len() && (#[trigger] all2[i]).name() == n && declares(all2[i], x, which);
        if i < b.schema.types.len() {
            assert(all1[a.schema.types.len() + i] == all2[i]);
        } else {
            assert(all1[i - b.schema.types.len()] == all2[i]);
        }
    }
}

/// With no merge errors, the merged schema's names are the merged names.
pub proof fn lemma_merged_names_line_up(subs: Seq<SubgraphView>, n: Seq<char>)
    requires
        merge_error_views(subs).len() == 0,
    ensures
        contains_name(decl_names(merged_schema_view(subs).types), n) <==> contains_name(
            decl_names(concat_decls(subs)),
            n,
        ),
{
    let all = concat_decls(subs);
    let names = merged_type_names(subs);
    let merged = merge_types_over(names, all);
    lemma_merge_types_characterize(names, all);
    lemma_dedup_first_membership(decl_names(all), n);
    if contains_name(decl_names(merged), n) {
        let j = choose|j: int| 0 <= j < decl_names(merged).len() && decl_names(merged)[j] == n;
        lemma_merged_type_name(names[j], decls_named(all, names[j]));
        assert(names[j] == n);
    }
    if contains_name(decl_names(all), n) {
        assert(contains_name(names, n));
        let j = choose|j: int| 0 <= j < names.len() && names[j] == n;
        lemma_merged_type_name(names[j], decls_named(all, names[j]));
        assert(decl_names(merged)[j] == n);
    }
}

// ------------------------------------------------------------------
// Determinism.
// ------------------------------------------------------------------
/// Determinism: composition is a function of the subgraph list alone, so
/// composing equal lists yields equal supergraphs, and rendering their
/// schemas yields byte-identical text.
pub proof fn lemma_composition_deterministic(s1: Seq<SubgraphView>, s2: Seq<SubgraphView>)
    requires
        s1 == s2,
    ensures
        composed_view(s1) == composed_view(s2),
        crate::render::render_spec(composed_view(s1).schema) == crate::render::render_spec(
            composed_view(s2).schema,
        ),
{
}

} // verus!
