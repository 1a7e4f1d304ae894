//! The supergraph: the single composed schema spanning all subgraphs,
//! tagged `Merged` when it leaves the merge engine and `Satisfiable` once
//! the satisfiability validator has approved it (or the caller chose to
//! skip that check).

use vstd::prelude::*;

use crate::error::Hint;
use crate::model::SchemaDoc;
use crate::model::SchemaDocView;

verus! {

/// Lifecycle state: produced by the merge engine, not yet proven
/// satisfiable.
pub struct Merged {
    seal: (),
}

/// Lifecycle state: every composed field has a resolution path, or the
/// caller disabled the check and assumes it.
pub struct Satisfiable {
    seal: (),
}

/// Routing metadata retained for one subgraph: its name and its validated
/// schema, the source of field ownership and `@key` edges for the
/// satisfiability analysis and for the query planner downstream.
pub struct RoutingSubgraph {
    pub name: String,
    pub schema: SchemaDoc,
}

/// Mathematical view of a [`RoutingSubgraph`].
pub ghost struct RoutingSubgraphView {
    pub name: Seq<char>,
    pub schema: SchemaDocView,
}

impl View for RoutingSubgraph {
    type V = RoutingSubgraphView;

    open spec fn view(&self) -> RoutingSubgraphView {
        RoutingSubgraphView { name: self.name@, schema: self.schema@ }
    }
}

/// The composed schema, with the hints gathered during merging and the
/// per-subgraph routing metadata.
pub struct Supergraph<S> {
    pub schema: SchemaDoc,
    pub hints: Vec<Hint>,
    pub routing: Vec<RoutingSubgraph>,
    pub state: S,
}

/// Mathematical view of a [`Supergraph`], the same in both states.
pub ghost struct SupergraphView {
    pub schema: SchemaDocView,
    pub hints: Seq<Seq<char>>,
    pub routing: Seq<RoutingSubgraphView>,
}

impl<S> View for Supergraph<S> {
    type V = SupergraphView;

    open spec fn view(&self) -> SupergraphView {
        SupergraphView {
            schema: self.schema@,
            hints: self.hints@.map(|i: int, h: Hint| h@),
            routing: self.routing@.map(|i: int, r: RoutingSubgraph| r@),
        }
    }
}

impl Supergraph<Merged> {
    /// A merged supergraph over the given schema, with no hints and no
    /// routing metadata.
    pub fn new(schema: SchemaDoc) -> (r: Supergraph<Merged>)
        ensures
            r@ == (SupergraphView {
                schema: schema@,
                hints: Seq::<Seq<char>>::empty(),
                routing: Seq::<RoutingSubgraphView>::empty(),
            }),
    {
        let hints: Vec<Hint> = Vec::new();
        let routing: Vec<RoutingSubgraph> = Vec::new();
        proof {
            assert(hints@.map(|i: int, h: Hint| h@) =~= Seq::<Seq<char>>::empty());
            assert(routing@.map(|i: int, r: RoutingSubgraph| r@) =~= Seq::<
                RoutingSubgraphView,
            >::empty());
        }
        Supergraph { schema, hints, routing, state: Merged { seal: () } }
    }

    /// A merged supergraph carrying the hints and routing metadata the
    /// merge engine produced alongside the schema.
    pub fn with_metadata(schema: SchemaDoc, hints: Vec<Hint>, routing: Vec<RoutingSubgraph>) -> (r:
        Supergraph<Merged>)
        ensures
            r@ == (SupergraphView {
                schema: schema@,
                hints: hints@.map(|i: int, h: Hint| h@),
                routing: routing@.map(|i: int, r: RoutingSubgraph| r@),
            }),
    {
        Supergraph { schema, hints, routing, state: Merged { seal: () } }
    }

    /// Re-tags the supergraph as satisfiable without verification. This is
    /// a trust boundary, not a proof: callers who disable satisfiability
    /// checking assume every composed field is resolvable.
    pub fn assume_satisfiable(self) -> (r: Supergraph<Satisfiable>)
        ensures
            r@ == self@,
    {
        Supergraph {
            schema: self.schema,
            hints: self.hints,
            routing: self.routing,
            state: Satisfiable { seal: () },
        }
    }
}

impl<S> Supergraph<S> {
    /// The composed schema document.
    pub fn schema(&self) -> (r: &SchemaDoc)
        ensures
            r@ == self@.schema,
    {
        &self.schema
    }

    /// The hints gathered while merging, in the order they were found.
    pub fn hints(&self) -> (r: &Vec<Hint>)
        ensures
            r@.map(|i: int, h: Hint| h@) == self@.hints,
    {
        &self.hints
    }
}

/// Marks a satisfiability-validated supergraph; only the satisfiability
/// validator and [`Supergraph::assume_satisfiable`] produce this state.
pub(crate) fn seal_satisfiable() -> Satisfiable {
    Satisfiable { seal: () }
}

} // verus!
