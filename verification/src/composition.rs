//! The pipeline orchestrator: expand, upgrade, validate, pre-merge checks,
//! merge, post-merge checks, and (optionally) satisfiability, in order.
//!
//! Between stages the pipeline is fail-fast: a stage runs only when the
//! one before produced no error. Within a stage that works through a list
//! of subgraphs it is fail-slow: every subgraph is processed and all
//! failures are reported together, never just the first.

use vstd::prelude::*;
use vstd::string::StringExecFns;

use crate::error::CompositionError;
use crate::error::CompositionErrorView;
use crate::error::duplicate_name_message;
use crate::error::empty_subgraphs_message;
use crate::error::invalid_link_import_message;
use crate::error::make_duplicate_name_message;
use crate::error::make_empty_subgraphs_message;
use crate::merge::MergeResult;
use crate::merge::merge_error_views;
use crate::merge::merge_hint_views;
use crate::merge::merge_subgraph_schemas;
use crate::merge::merged_schema_view;
use crate::merge::routing_views;
use crate::merge::sub_views;
use crate::model::SchemaDocView;
use crate::model::TypeDefView;
use crate::model::contains_name;
use crate::model::first_type_index;
use crate::model::find_type;
use crate::model::lemma_skip_one;
use crate::satisfiability::sat_ok;
pub use crate::satisfiability::validate_satisfiability;
use crate::subgraph::Expanded;
use crate::subgraph::Initial;
use crate::subgraph::Subgraph;
use crate::subgraph::SubgraphView;
use crate::subgraph::Upgraded;
use crate::subgraph::Validated;
use crate::subgraph::first_bad_import;
use crate::subgraph::subgraph_schema_problem;
use crate::supergraph::Merged;
use crate::supergraph::Satisfiable;
use crate::supergraph::Supergraph;
use crate::supergraph::SupergraphView;

verus! {

/// Options for composition.
#[derive(Debug, Clone, Copy)]
pub struct CompositionOptions {
    /// Whether to run satisfiability validation (defaults to true).
    pub run_satisfiability: bool,
}

impl Default for CompositionOptions {
    /// The default options: satisfiability validation is on.
    fn default() -> (r: Self)
        ensures
            r.run_satisfiability,
    {
        CompositionOptions { run_satisfiability: true }
    }
}

/// Views of a sequence of subgraphs in any one lifecycle state.
pub open spec fn subgraph_views<S>(s: Seq<Subgraph<S>>) -> Seq<SubgraphView> {
    s.map(|i: int, x: Subgraph<S>| x@)
}

/// Views of a sequence of errors.
pub open spec fn error_views(s: Seq<CompositionError>) -> Seq<CompositionErrorView> {
    s.map(|i: int, e: CompositionError| e@)
}

/// Whether a subgraph's `@link` imports all resolve.
pub open spec fn expand_ok(s: SubgraphView) -> bool {
    first_bad_import(s.link_imports) is None
}

/// The subgraph after link expansion: unchanged, with its imports spent.
pub open spec fn expanded_view(s: SubgraphView) -> SubgraphView {
    SubgraphView {
        name: s.name,
        routing_url: s.routing_url,
        schema: s.schema,
        link_imports: Seq::empty(),
    }
}

/// The error reported for a subgraph whose imports do not resolve.
pub open spec fn expand_error(s: SubgraphView) -> CompositionErrorView {
    match first_bad_import(s.link_imports) {
        Some(j) => CompositionErrorView::InvalidLinkDirective {
            message: invalid_link_import_message(s.link_imports[j]),
        },
        None => CompositionErrorView::InvalidLinkDirective { message: Seq::empty() },
    }
}

/// The expanded subgraphs, in order.
pub open spec fn expand_stage_views(subs: Seq<SubgraphView>) -> Seq<SubgraphView> {
    subs.map(|i: int, s: SubgraphView| expanded_view(s))
}

/// The expand-stage errors, in subgraph order: the error collector gathers
/// every failure, never just the first.
pub open spec fn expand_stage_errors(subs: Seq<SubgraphView>) -> Seq<CompositionErrorView>
    decreases subs.len(),
{
    if subs.len() == 0 {
        Seq::empty()
    } else {
        (if expand_ok(subs[0]) {
            Seq::empty()
        } else {
            seq![expand_error(subs[0])]
        }) + expand_stage_errors(subs.skip(1))
    }
}

/// Whether every subgraph's imports resolve.
pub open spec fn stage_expand_ok(subs: Seq<SubgraphView>) -> bool {
    forall|i: int| 0 <= i < subs.len() ==> expand_ok(#[trigger] subs[i])
}

/// Whether a subgraph passes federation validation.
pub open spec fn validate_ok(s: SubgraphView) -> bool {
    subgraph_schema_problem(s.schema) is None
}

/// The error reported for a subgraph that fails federation validation.
pub open spec fn validate_error(s: SubgraphView) -> CompositionErrorView {
    match subgraph_schema_problem(s.schema) {
        Some(m) => CompositionErrorView::InvalidFieldSet { message: m },
        None => CompositionErrorView::InvalidFieldSet { message: Seq::empty() },
    }
}

/// The validate-stage errors, in subgraph order.
pub open spec fn validate_stage_errors(subs: Seq<SubgraphView>) -> Seq<CompositionErrorView>
    decreases subs.len(),
{
    if subs.len() == 0 {
        Seq::empty()
    } else {
        (if validate_ok(subs[0]) {
            Seq::empty()
        } else {
            seq![validate_error(subs[0])]
        }) + validate_stage_errors(subs.skip(1))
    }
}

/// Whether every subgraph passes federation validation.
pub open spec fn stage_validate_ok(subs: Seq<SubgraphView>) -> bool {
    forall|i: int| 0 <= i < subs.len() ==> validate_ok(#[trigger] subs[i])
}

/// The names of the subgraphs, in order.
pub open spec fn sub_names(subs: Seq<SubgraphView>) -> Seq<Seq<char>> {
    subs.map(|i: int, s: SubgraphView| s.name)
}

/// The first position whose name already appeared earlier, from `j` on.
pub open spec fn first_dup_from(names: Seq<Seq<char>>, j: int) -> Option<int>
    decreases names.len() - j when 0 <= j <= names.len()
{
    if j >= names.len() {
        None
    } else if contains_name(names.subrange(0, j), names[j]) {
        Some(j)
    } else {
        first_dup_from(names, j + 1)
    }
}

/// The first position whose name already appeared earlier, if any.
pub open spec fn first_dup(names: Seq<Seq<char>>) -> Option<int> {
    first_dup_from(names, 0)
}

/// The post-merge structural problems of a merged schema: the query root
/// must be present, and an `_Entity` union, if one exists, must not be
/// empty.
pub open spec fn post_merge_problems(d: SchemaDocView) -> Seq<CompositionErrorView> {
    (if d.query_root is None {
        seq![
            CompositionErrorView::TypeDefinitionInvalid {
                message: "Supergraph must have a query type"@,
            },
        ]
    } else {
        Seq::empty()
    }) + (if entity_union_empty(d) {
        seq![
            CompositionErrorView::TypeDefinitionInvalid {
                message: "_Entity union exists but has no members"@,
            },
        ]
    } else {
        Seq::empty()
    })
}

/// Whether the schema declares a union named `_Entity` with no members.
pub open spec fn entity_union_empty(d: SchemaDocView) -> bool {
    match first_type_index(d.types, "_Entity"@) {
        Some(i) => d.types[i] matches TypeDefView::Union(u) && u.members.len() == 0,
        None => false,
    }
}

/// Apollo Federation allows subgraphs to specify partial schemas, importing
/// federation directives through `@link`. This stage resolves every
/// subgraph's imports, collecting the failures of all subgraphs together.
#[verifier::loop_isolation(false)]
pub fn expand_subgraphs(subgraphs: Vec<Subgraph<Initial>>) -> (r: Result<
    Vec<Subgraph<Expanded>>,
    Vec<CompositionError>,
>)
    ensures
        r is Ok <==> stage_expand_ok(subgraph_views(subgraphs@)),
        r matches Ok(v) ==> subgraph_views(v@) == expand_stage_views(subgraph_views(subgraphs@)),
        r matches Err(es) ==> error_views(es@) == expand_stage_errors(subgraph_views(subgraphs@))
            && es@.len() > 0,
{
    let ghost subs = subgraph_views(subgraphs@);
    let mut rest = subgraphs;
    let mut oks: Vec<Subgraph<Expanded>> = Vec::new();
    let mut errors: Vec<CompositionError> = Vec::new();
    proof {
        assert(subgraph_views(rest@) =~= subs.skip(0));
        assert(subgraph_views(oks@) =~= expand_stage_views(subs).subrange(0, 0));
        assert(error_views(errors@) =~= Seq::<CompositionErrorView>::empty());
    }
    while rest.len() > 0
        invariant
            rest@.len() <= subs.len(),
            subgraph_views(rest@) =~= subs.skip(subs.len() - rest@.len()),
            expand_stage_errors(subs) == error_views(errors@) + expand_stage_errors(
                subs.skip(subs.len() - rest@.len()),
            ),
            (errors@.len() == 0) <==> (forall|i: int|
                0 <= i < subs.len() - rest@.len() ==> expand_ok(#[trigger] subs[i])),
            errors@.len() == 0 ==> subgraph_views(oks@) =~= expand_stage_views(subs).subrange(
                0,
                subs.len() - rest@.len(),
            ),
        decreases rest@.len(),
    {
        let ghost k = subs.len() - rest@.len();
        let ghost restv = rest@;
        let s = rest.remove(0);
        proof {
            assert(subgraph_views(restv)[0] == s@);
            assert(s@ == subs[k]);
            let a = subgraph_views(rest@);
            assert(rest@ =~= restv.subrange(1, restv.len() as int));
            assert forall|i: int| 0 <= i < a.len() implies a[i] == subs.skip(k + 1)[i] by {
                assert(rest@[i] == restv[i + 1]);
                assert(subgraph_views(restv)[i + 1] == restv[i + 1]@);
                assert(subs.skip(k)[i + 1] == subs[k + 1 + i]);
            }
            assert(subgraph_views(rest@) =~= subs.skip(k + 1));
            lemma_skip_one(subs, k);
        }
        let outcome = s.expand_links();
        match outcome {
            Ok(e) => {
                let ghost prev = oks@;
                oks.push(e);
                proof {
                    assert(expand_ok(subs[k]));
                    assert(expand_stage_errors(subs.skip(k)) == expand_stage_errors(
                        subs.skip(k + 1),
                    ));
                    if errors@.len() == 0 {
                        let a = subgraph_views(oks@);
                        let b = expand_stage_views(subs).subrange(0, k + 1);
                        assert(subgraph_views(prev).len() == prev.len());
                        assert forall|i: int| 0 <= i < a.len() implies a[i] == b[i] by {
                            if i < prev.len() {
                                assert(oks@[i] == prev[i]);
                                assert(subgraph_views(prev)[i] == prev[i]@);
                            } else {
                                assert(oks@[i] == oks@.last());
                                assert(b[i] == expanded_view(subs[k]));
                            }
                        }
                        assert(a =~= b);
                    }
                }
            },
            Err(er) => {
                let ghost prev = errors@;
                errors.push(er);
                proof {
                    assert(!expand_ok(subs[k]));
                    assert(er@ == expand_error(subs[k]));
                    assert(expand_stage_errors(subs.skip(k)) == seq![expand_error(subs[k])]
                        + expand_stage_errors(subs.skip(k + 1)));
                    let a = error_views(errors@);
                    assert(error_views(prev).len() == prev.len());
                    assert forall|i: int|
                        0 <= i < a.len() implies a[i] == (error_views(prev) + seq![
                        expand_error(subs[k]),
                    ])[i] by {
                        if i < prev.len() {
                            assert(errors@[i] == prev[i]);
                            assert(error_views(prev)[i] == prev[i]@);
                        } else {
                            assert(errors@[i] == errors@.last());
                        }
                    }
                    assert(a =~= error_views(prev) + seq![expand_error(subs[k])]);
                    assert((error_views(prev) + seq![expand_error(subs[k])])
                        + expand_stage_errors(subs.skip(k + 1)) =~= error_views(prev) + (seq![
                        expand_error(subs[k]),
                    ] + expand_stage_errors(subs.skip(k + 1))));
                }
            },
        }
    }
    proof {
        assert(subs.skip(subs.len() as int).len() == 0);
        assert(expand_stage_errors(subs.skip(subs.len() as int)) =~= Seq::<
            CompositionErrorView,
        >::empty());
        assert(error_views(errors@) + Seq::<CompositionErrorView>::empty() =~= error_views(
            errors@,
        ));
        assert(expand_stage_views(subs).subrange(0, subs.len() as int) =~= expand_stage_views(
            subs,
        ));
    }
    if errors.len() == 0 {
        Ok(oks)
    } else {
        Err(errors)
    }
}

/// The schema upgrader: rewrites older federation spec versions to the
/// current form. It sees the whole batch at once to settle on a version;
/// in this model every schema is already current, so each subgraph passes
/// through unchanged.
#[verifier::loop_isolation(false)]
pub fn upgrade_subgraphs_if_necessary(subgraphs: Vec<Subgraph<Expanded>>) -> (r: Result<
    Vec<Subgraph<Upgraded>>,
    Vec<CompositionError>,
>)
    ensures
        r matches Ok(v) && subgraph_views(v@) == subgraph_views(subgraphs@),
{
    let ghost subs = subgraph_views(subgraphs@);
    let mut rest = subgraphs;
    let mut oks: Vec<Subgraph<Upgraded>> = Vec::new();
    proof {
        assert(subgraph_views(rest@) =~= subs.skip(0));
        assert(subgraph_views(oks@) =~= subs.subrange(0, 0));
    }
    while rest.len() > 0
        invariant
            rest@.len() <= subs.len(),
            subgraph_views(rest@) =~= subs.skip(subs.len() - rest@.len()),
            subgraph_views(oks@) =~= subs.subrange(0, subs.len() - rest@.len()),
        decreases rest@.len(),
    {
        let ghost k = subs.len() - rest@.len();
        let ghost restv = rest@;
        let s = rest.remove(0);
        proof {
            assert(subgraph_views(restv)[0] == s@);
            assert(s@ == subs[k]);
            let a = subgraph_views(rest@);
            assert(rest@ =~= restv.subrange(1, restv.len() as int));
            assert forall|i: int| 0 <= i < a.len() implies a[i] == subs.skip(k + 1)[i] by {
                assert(rest@[i] == restv[i + 1]);
                assert(subgraph_views(restv)[i + 1] == restv[i + 1]@);
                assert(subs.skip(k)[i + 1] == subs[k + 1 + i]);
            }
            assert(subgraph_views(rest@) =~= subs.skip(k + 1));
        }
        let ghost prev = oks@;
        oks.push(s.upgrade());
        proof {
            let a = subgraph_views(oks@);
            let b = subs.subrange(0, k + 1);
            assert(subgraph_views(prev).len() == prev.len());
            assert forall|i: int| 0 <= i < a.len() implies a[i] == b[i] by {
                if i < prev.len() {
                    assert(oks@[i] == prev[i]);
                    assert(subgraph_views(prev)[i] == prev[i]@);
                } else {
                    assert(oks@[i] == oks@.last());
                }
            }
            assert(a =~= b);
        }
    }
    proof {
        assert(subs.subrange(0, subs.len() as int) =~= subs);
    }
    Ok(oks)
}

/// Validates each subgraph against the federation requirements (`@key`
/// selections must exist and be well-formed), collecting the failures of
/// all subgraphs together.
#[verifier::loop_isolation(false)]
pub fn validate_subgraphs(subgraphs: Vec<Subgraph<Upgraded>>) -> (r: Result<
    Vec<Subgraph<Validated>>,
    Vec<CompositionError>,
>)
    ensures
        r is Ok <==> stage_validate_ok(subgraph_views(subgraphs@)),
        r matches Ok(v) ==> subgraph_views(v@) == subgraph_views(subgraphs@),
        r matches Err(es) ==> error_views(es@) == validate_stage_errors(
            subgraph_views(subgraphs@),
        ) && es@.len() > 0,
{
    let ghost subs = subgraph_views(subgraphs@);
    let mut rest = subgraphs;
    let mut oks: Vec<Subgraph<Validated>> = Vec::new();
    let mut errors: Vec<CompositionError> = Vec::new();
    proof {
        assert(subgraph_views(rest@) =~= subs.skip(0));
        assert(subgraph_views(oks@) =~= subs.subrange(0, 0));
        assert(error_views(errors@) =~= Seq::<CompositionErrorView>::empty());
    }
    while rest.len() > 0
        invariant
            rest@.len() <= subs.len(),
            subgraph_views(rest@) =~= subs.skip(subs.len() - rest@.len()),
            validate_stage_errors(subs) == error_views(errors@) + validate_stage_errors(
                subs.skip(subs.len() - rest@.len()),
            ),
            (errors@.len() == 0) <==> (forall|i: int|
                0 <= i < subs.len() - rest@.len() ==> validate_ok(#[trigger] subs[i])),
            errors@.len() == 0 ==> subgraph_views(oks@) =~= subs.subrange(
                0,
                subs.len() - rest@.len(),
            ),
        decreases rest@.len(),
    {
        let ghost k = subs.len() - rest@.len();
        let ghost restv = rest@;
        let s = rest.remove(0);
        proof {
            assert(subgraph_views(restv)[0] == s@);
            assert(s@ == subs[k]);
            let a = subgraph_views(rest@);
            assert(rest@ =~= restv.subrange(1, restv.len() as int));
            assert forall|i: int| 0 <= i < a.len() implies a[i] == subs.skip(k + 1)[i] by {
                assert(rest@[i] == restv[i + 1]);
                assert(subgraph_views(restv)[i + 1] == restv[i + 1]@);
                assert(subs.skip(k)[i + 1] == subs[k + 1 + i]);
            }
            assert(subgraph_views(rest@) =~= subs.skip(k + 1));
            lemma_skip_one(subs, k);
        }
        let outcome = s.validate();
        match outcome {
            Ok(v) => {
                let ghost prev = oks@;
                oks.push(v);
                proof {
                    assert(validate_ok(subs[k]));
                    assert(validate_stage_errors(subs.skip(k)) == validate_stage_errors(
                        subs.skip(k + 1),
                    ));
                    if errors@.len() == 0 {
                        let a = subgraph_views(oks@);
                        let b = subs.subrange(0, k + 1);
                        assert(subgraph_views(prev).len() == prev.len());
                        assert forall|i: int| 0 <= i < a.len() implies a[i] == b[i] by {
                            if i < prev.len() {
                                assert(oks@[i] == prev[i]);
                                assert(subgraph_views(prev)[i] == prev[i]@);
                            } else {
                                assert(oks@[i] == oks@.last());
                            }
                        }
                        assert(a =~= b);
                    }
                }
            },
            Err(er) => {
                let ghost prev = errors@;
                errors.push(er);
                proof {
                    assert(!validate_ok(subs[k]));
                    assert(er@ == validate_error(subs[k]));
                    assert(validate_stage_errors(subs.skip(k)) == seq![validate_error(subs[k])]
                        + validate_stage_errors(subs.skip(k + 1)));
                    let a = error_views(errors@);
                    assert(error_views(prev).len() == prev.len());
                    assert forall|i: int|
                        0 <= i < a.len() implies a[i] == (error_views(prev) + seq![
                        validate_error(subs[k]),
                    ])[i] by {
                        if i < prev.len() {
                            assert(errors@[i] == prev[i]);
                            assert(error_views(prev)[i] == prev[i]@);
                        } else {
                            assert(errors@[i] == errors@.last());
                        }
                    }
                    assert(a =~= error_views(prev) + seq![validate_error(subs[k])]);
                    assert((error_views(prev) + seq![validate_error(subs[k])])
                        + validate_stage_errors(subs.skip(k + 1)) =~= error_views(prev) + (seq![
                        validate_error(subs[k]),
                    ] + validate_stage_errors(subs.skip(k + 1))));
                }
            },
        }
    }
    proof {
        assert(subs.skip(subs.len() as int).len() == 0);
        assert(validate_stage_errors(subs.skip(subs.len() as int)) =~= Seq::<
            CompositionErrorView,
        >::empty());
        assert(error_views(errors@) + Seq::<CompositionErrorView>::empty() =~= error_views(
            errors@,
        ));
        assert(subs.subrange(0, subs.len() as int) =~= subs);
    }
    if errors.len() == 0 {
        Ok(oks)
    } else {
        Err(errors)
    }
}

/// Validations that need the whole set of subgraphs at once: the list must
/// not be empty, and every subgraph name must be unique.
#[verifier::loop_isolation(false)]
pub fn pre_merge_validations(subgraphs: &Vec<Subgraph<Validated>>) -> (r: Result<
    (),
    Vec<CompositionError>,
>)
    ensures
        subgraphs@.len() == 0 ==> (r matches Err(es) && error_views(es@) =~= seq![
            CompositionErrorView::InternalError { message: empty_subgraphs_message() },
        ]),
        subgraphs@.len() > 0 ==> (r is Ok <==> first_dup(
            sub_names(subgraph_views(subgraphs@)),
        ) is None),
        subgraphs@.len() > 0 ==> (r matches Err(es) ==> {
            &&& first_dup(sub_names(subgraph_views(subgraphs@))) matches Some(j)
            &&& error_views(es@) =~= seq![
                CompositionErrorView::InternalError {
                    message: duplicate_name_message(sub_names(subgraph_views(subgraphs@))[j]),
                },
            ]
        }),
{
    let ghost names = sub_names(subgraph_views(subgraphs@));
    if subgraphs.len() == 0 {
        let mut es: Vec<CompositionError> = Vec::new();
        es.push(CompositionError::InternalError { message: make_empty_subgraphs_message() });
        return Err(es);
    }
    let mut seen: Vec<String> = Vec::new();
    proof {
        assert(crate::model::names_view(seen@) =~= names.subrange(0, 0));
    }
    let mut j: usize = 0;
    while j < subgraphs.len()
        invariant
            0 <= j <= subgraphs@.len(),
            crate::model::names_view(seen@) =~= names.subrange(0, j as int),
            first_dup(names) == first_dup_from(names, j as int),
        decreases subgraphs@.len() - j,
    {
        let name = &subgraphs[j].name;
        assert(name@ == names[j as int]);
        if crate::model::vec_contains_name(&seen, name) {
            proof {
                assert(contains_name(names.subrange(0, j as int), names[j as int]));
                assert(first_dup_from(names, j as int) == Some(j as int));
            }
            let mut es: Vec<CompositionError> = Vec::new();
            es.push(
                CompositionError::InternalError { message: make_duplicate_name_message(name) },
            );
            return Err(es);
        }
        let ghost prev = seen@;
        let nm = name.clone();
        let ghost nv = nm@;
        seen.push(nm);
        proof {
            assert(crate::model::names_view(prev).len() == prev.len());
            assert(seen@[prev.len() as int]@ == nv);
            assert(crate::model::names_view(seen@) =~= crate::model::names_view(prev).push(nv));
            assert(crate::model::names_view(seen@) =~= names.subrange(0, (j + 1) as int));
        }
        j += 1;
    }
    Ok(())
}

/// Merges the validated subgraphs into a supergraph, or reports every
/// merge conflict found.
pub fn merge_subgraphs(subgraphs: Vec<Subgraph<Validated>>) -> (r: Result<
    Supergraph<Merged>,
    Vec<CompositionError>,
>)
    ensures
        r is Ok <==> merge_error_views(sub_views(subgraphs@)).len() == 0,
        r matches Ok(sg) ==> sg@ == (SupergraphView {
            schema: merged_schema_view(sub_views(subgraphs@)),
            hints: merge_hint_views(sub_views(subgraphs@)),
            routing: routing_views(sub_views(subgraphs@)),
        }),
        r matches Err(es) ==> error_views(es@) == merge_error_views(sub_views(subgraphs@))
            && es@.len() > 0,
{
    let ghost subs = sub_views(subgraphs@);
    let outcome: MergeResult = merge_subgraph_schemas(subgraphs);
    if outcome.errors.len() > 0 {
        proof {
            assert(error_views(outcome.errors@) == merge_error_views(subs));
            assert(error_views(outcome.errors@).len() == outcome.errors@.len());
        }
        return Err(outcome.errors);
    }
    proof {
        assert(error_views(outcome.errors@).len() == 0);
    }
    match outcome.supergraph {
        Some(sg) => Ok(sg),
        None => {
            // Unreachable: the engine always produces a supergraph when it
            // reports no error.
            let mut es: Vec<CompositionError> = Vec::new();
            es.push(
                CompositionError::InternalError {
                    message: String::from_str(
                        "Merge completed but no supergraph schema was produced",
                    ),
                },
            );
            Err(es)
        },
    }
}

/// Structural checks on the merged result: a query type must exist, and an
/// internal `_Entity` union, if present, must be non-empty.
pub fn post_merge_validations(supergraph: &Supergraph<Merged>) -> (r: Result<
    (),
    Vec<CompositionError>,
>)
    ensures
        r is Ok <==> post_merge_problems(supergraph@.schema).len() == 0,
        r matches Err(es) ==> error_views(es@) == post_merge_problems(supergraph@.schema)
            && es@.len() > 0,
{
    let ghost dv = supergraph@.schema;
    let mut errors: Vec<CompositionError> = Vec::new();
    let missing_root = match &supergraph.schema.query_root {
        Some(q) => false,
        None => true,
    };
    if missing_root {
        errors.push(
            CompositionError::TypeDefinitionInvalid {
                message: String::from_str("Supergraph must have a query type"),
            },
        );
    }
    let entity_name = String::from_str("_Entity");
    let found = find_type(&supergraph.schema.types, &entity_name);
    let empty_entity = match found {
        Some(t) => match t {
            crate::model::TypeDef::Union(u) => u.members.len() == 0,
            _ => false,
        },
        None => false,
    };
    assert(empty_entity == entity_union_empty(dv));
    if empty_entity {
        errors.push(
            CompositionError::TypeDefinitionInvalid {
                message: String::from_str("_Entity union exists but has no members"),
            },
        );
    }
    proof {
        assert(error_views(errors@) =~= post_merge_problems(dv));
    }
    if errors.len() == 0 {
        proof {
            assert(post_merge_problems(dv).len() == 0);
        }
        Ok(())
    } else {
        Err(errors)
    }
}

/// Every expand-stage error is an `@link` import error.
pub proof fn lemma_expand_stage_errors_kind(subs: Seq<SubgraphView>)
    ensures
        forall|i: int|
            0 <= i < expand_stage_errors(subs).len() ==> (#[trigger] expand_stage_errors(subs)[i])
                is InvalidLinkDirective,
    decreases subs.len(),
{
    if subs.len() > 0 {
        lemma_expand_stage_errors_kind(subs.skip(1));
        let head: Seq<CompositionErrorView> = if expand_ok(subs[0]) {
            Seq::empty()
        } else {
            seq![expand_error(subs[0])]
        };
        assert(expand_stage_errors(subs) == head + expand_stage_errors(subs.skip(1)));
        assert forall|i: int|
            0 <= i < expand_stage_errors(subs).len() implies (#[trigger] expand_stage_errors(
            subs,
        )[i]) is InvalidLinkDirective by {
            if i < head.len() {
                assert(expand_stage_errors(subs)[i] == head[i]);
            } else {
                assert(expand_stage_errors(subs)[i] == expand_stage_errors(subs.skip(1))[i
                    - head.len()]);
            }
        }
    }
}

/// Every validate-stage error is a field-set error.
pub proof fn lemma_validate_stage_errors_kind(subs: Seq<SubgraphView>)
    ensures
        forall|i: int|
            0 <= i < validate_stage_errors(subs).len() ==> (#[trigger] validate_stage_errors(
                subs,
            )[i]) is InvalidFieldSet,
    decreases subs.len(),
{
    if subs.len() > 0 {
        lemma_validate_stage_errors_kind(subs.skip(1));
        let head: Seq<CompositionErrorView> = if validate_ok(subs[0]) {
            Seq::empty()
        } else {
            seq![validate_error(subs[0])]
        };
        assert(validate_stage_errors(subs) == head + validate_stage_errors(subs.skip(1)));
        assert forall|i: int|
            0 <= i < validate_stage_errors(subs).len() implies (#[trigger] validate_stage_errors(
            subs,
        )[i]) is InvalidFieldSet by {
            if i < head.len() {
                assert(validate_stage_errors(subs)[i] == head[i]);
            } else {
                assert(validate_stage_errors(subs)[i] == validate_stage_errors(subs.skip(1))[i
                    - head.len()]);
            }
        }
    }
}

/// Every post-merge problem is a type-definition error.
pub proof fn lemma_post_merge_problems_kind(d: SchemaDocView)
    ensures
        forall|i: int|
            0 <= i < post_merge_problems(d).len() ==> (#[trigger] post_merge_problems(d)[i])
                is TypeDefinitionInvalid,
{
    let first: Seq<CompositionErrorView> = if d.query_root is None {
        seq![
            CompositionErrorView::TypeDefinitionInvalid {
                message: "Supergraph must have a query type"@,
            },
        ]
    } else {
        Seq::empty()
    };
    let second: Seq<CompositionErrorView> = if entity_union_empty(d) {
        seq![
            CompositionErrorView::TypeDefinitionInvalid {
                message: "_Entity union exists but has no members"@,
            },
        ]
    } else {
        Seq::empty()
    };
    assert forall|i: int|
        0 <= i < post_merge_problems(d).len() implies (#[trigger] post_merge_problems(d)[i])
            is TypeDefinitionInvalid by {
        if i < first.len() {
            assert(post_merge_problems(d)[i] == first[i]);
        } else {
            assert(post_merge_problems(d)[i] == second[i - first.len()]);
        }
    }
}

/// Whether the whole pipeline succeeds on the given subgraphs: every
/// stage in order must find nothing wrong, with satisfiability checked
/// only when asked for.
pub open spec fn composition_succeeds(subs: Seq<SubgraphView>, run_sat: bool) -> bool {
    &&& stage_expand_ok(subs)
    &&& stage_validate_ok(expand_stage_views(subs))
    &&& subs.len() > 0
    &&& first_dup(sub_names(expand_stage_views(subs))) is None
    &&& merge_error_views(expand_stage_views(subs)).len() == 0
    &&& post_merge_problems(merged_schema_view(expand_stage_views(subs))).len() == 0
    &&& (run_sat ==> sat_ok(
        merged_schema_view(expand_stage_views(subs)),
        routing_views(expand_stage_views(subs)),
    ) && crate::satisfiability::req_ok(
        merged_schema_view(expand_stage_views(subs)),
        routing_views(expand_stage_views(subs)),
    ))
}

/// The view of the supergraph that a successful composition returns.
pub open spec fn composed_view(subs: Seq<SubgraphView>) -> SupergraphView {
    SupergraphView {
        schema: merged_schema_view(expand_stage_views(subs)),
        hints: merge_hint_views(expand_stage_views(subs)),
        routing: routing_views(expand_stage_views(subs)),
    }
}

/// Composes the subgraphs with the given options. The stages run in
/// order — expand, upgrade, validate, pre-merge checks, merge, post-merge
/// checks, satisfiability — and the pipeline stops at the first stage that
/// reports errors, returning that stage's full error list. On success the
/// supergraph is a function of the input alone, so composing the same
/// subgraphs twice gives the same schema. When satisfiability checking is
/// disabled, a result is returned as satisfiable without verification and
/// no satisfiability error is ever reported.
pub fn compose_with_options(subgraphs: Vec<Subgraph<Initial>>, options: CompositionOptions) -> (r:
    Result<Supergraph<Satisfiable>, Vec<CompositionError>>)
    ensures
        r is Ok <==> composition_succeeds(subgraph_views(subgraphs@), options.run_satisfiability),
        r matches Ok(sg) ==> sg@ == composed_view(subgraph_views(subgraphs@))
            && sg@.schema.query_root is Some,
        r matches Err(es) ==> es@.len() > 0,
        !stage_expand_ok(subgraph_views(subgraphs@)) ==> (r matches Err(es) && error_views(es@)
            == expand_stage_errors(subgraph_views(subgraphs@))),
        stage_expand_ok(subgraph_views(subgraphs@)) && !stage_validate_ok(
            expand_stage_views(subgraph_views(subgraphs@)),
        ) ==> (r matches Err(es) && error_views(es@) == validate_stage_errors(
            expand_stage_views(subgraph_views(subgraphs@)),
        )),
        stage_expand_ok(subgraph_views(subgraphs@)) && stage_validate_ok(
            expand_stage_views(subgraph_views(subgraphs@)),
        ) && subgraphs@.len() == 0 ==> (r matches Err(es) && error_views(es@) =~= seq![
            CompositionErrorView::InternalError { message: empty_subgraphs_message() },
        ]),
        stage_expand_ok(subgraph_views(subgraphs@)) && stage_validate_ok(
            expand_stage_views(subgraph_views(subgraphs@)),
        ) && subgraphs@.len() > 0 ==> (first_dup(
            sub_names(expand_stage_views(subgraph_views(subgraphs@))),
        ) matches Some(j) ==> (r matches Err(es) && error_views(es@) =~= seq![
            CompositionErrorView::InternalError {
                message: duplicate_name_message(
                    sub_names(expand_stage_views(subgraph_views(subgraphs@)))[j],
                ),
            },
        ])),
        stage_expand_ok(subgraph_views(subgraphs@)) && stage_validate_ok(
            expand_stage_views(subgraph_views(subgraphs@)),
        ) && subgraphs@.len() > 0 && first_dup(
            sub_names(expand_stage_views(subgraph_views(subgraphs@))),
        ) is None && merge_error_views(expand_stage_views(subgraph_views(subgraphs@))).len() > 0
            ==> (r matches Err(es) && error_views(es@) == merge_error_views(
            expand_stage_views(subgraph_views(subgraphs@)),
        )),
        stage_expand_ok(subgraph_views(subgraphs@)) && stage_validate_ok(
            expand_stage_views(subgraph_views(subgraphs@)),
        ) && subgraphs@.len() > 0 && first_dup(
            sub_names(expand_stage_views(subgraph_views(subgraphs@))),
        ) is None && merge_error_views(expand_stage_views(subgraph_views(subgraphs@))).len() == 0
            && post_merge_problems(
            merged_schema_view(expand_stage_views(subgraph_views(subgraphs@))),
        ).len() > 0 ==> (r matches Err(es) && error_views(es@) == post_merge_problems(
            merged_schema_view(expand_stage_views(subgraph_views(subgraphs@))),
        )),
        !options.run_satisfiability ==> (r matches Err(es) ==> forall|i: int|
            0 <= i < es@.len() ==> !((#[trigger] es@[i]@) is SatisfiabilityError)),
{
    let ghost subs = subgraph_views(subgraphs@);
    let ghost exp = expand_stage_views(subs);
    let expanded = match expand_subgraphs(subgraphs) {
        Ok(v) => v,
        Err(es) => {
            proof {
                lemma_expand_stage_errors_kind(subs);
                assert forall|i: int|
                    0 <= i < es@.len() implies !((#[trigger] es@[i]@) is SatisfiabilityError) by {
                    assert(error_views(es@)[i] == es@[i]@);
                }
            }
            return Err(es);
        },
    };
    proof {
        assert(subgraph_views(expanded@) == exp);
        assert(exp.len() == subs.len());
    }
    let upgraded = match upgrade_subgraphs_if_necessary(expanded) {
        Ok(v) => v,
        Err(es) => {
            return Err(es);
        },
    };
    proof {
        assert(subgraph_views(upgraded@) == exp);
    }
    let validated = match validate_subgraphs(upgraded) {
        Ok(v) => v,
        Err(es) => {
            proof {
                lemma_validate_stage_errors_kind(exp);
                assert forall|i: int|
                    0 <= i < es@.len() implies !((#[trigger] es@[i]@) is SatisfiabilityError) by {
                    assert(error_views(es@)[i] == es@[i]@);
                }
            }
            return Err(es);
        },
    };
    proof {
        assert(subgraph_views(validated@) == exp);
        assert(validated@.len() == exp.len());
    }
    match pre_merge_validations(&validated) {
        Ok(u) => {},
        Err(es) => {
            proof {
                assert forall|i: int|
                    0 <= i < es@.len() implies !((#[trigger] es@[i]@) is SatisfiabilityError) by {
                    assert(error_views(es@)[i] == es@[i]@);
                }
            }
            return Err(es);
        },
    }
    proof {
        assert(sub_views(validated@) =~= subgraph_views(validated@));
    }
    let supergraph = match merge_subgraphs(validated) {
        Ok(sg) => sg,
        Err(es) => {
            proof {
                crate::merge::lemma_merged_names_declared(exp);
                crate::merge::lemma_merge_errors_over_kind(
                    crate::merge::merged_type_names(exp),
                    crate::merge::concat_decls(exp),
                );
                assert forall|i: int|
                    0 <= i < es@.len() implies !((#[trigger] es@[i]@) is SatisfiabilityError) by {
                    assert(error_views(es@)[i] == es@[i]@);
                }
            }
            return Err(es);
        },
    };
    match post_merge_validations(&supergraph) {
        Ok(u) => {},
        Err(es) => {
            proof {
                lemma_post_merge_problems_kind(supergraph@.schema);
                assert forall|i: int|
                    0 <= i < es@.len() implies !((#[trigger] es@[i]@) is SatisfiabilityError) by {
                    assert(error_views(es@)[i] == es@[i]@);
                }
            }
            return Err(es);
        },
    }
    proof {
        assert(post_merge_problems(supergraph@.schema).len() == 0);
        assert(supergraph@.schema.query_root is Some) by {
            if supergraph@.schema.query_root is None {
                assert(post_merge_problems(supergraph@.schema).len() > 0);
            }
        }
    }
    if options.run_satisfiability {
        let outcome = validate_satisfiability(supergraph);
        match outcome {
            Ok(sg) => Ok(sg),
            Err(es) => Err(es),
        }
    } else {
        Ok(supergraph.assume_satisfiable())
    }
}

/// Composes the subgraphs with the default options: satisfiability on.
pub fn compose(subgraphs: Vec<Subgraph<Initial>>) -> (r: Result<
    Supergraph<Satisfiable>,
    Vec<CompositionError>,
>)
    ensures
        r is Ok <==> composition_succeeds(subgraph_views(subgraphs@), true),
        r matches Ok(sg) ==> sg@ == composed_view(subgraph_views(subgraphs@))
            && sg@.schema.query_root is Some,
        r matches Err(es) ==> es@.len() > 0,
{
    compose_with_options(subgraphs, CompositionOptions::default())
}

} // verus!
