//! The subgraph lifecycle: a linear typestate from `Initial` through
//! `Expanded` and `Upgraded` to `Validated`.
//!
//! Each transition consumes the subgraph and returns it in the next state or
//! fails with a [`CompositionError`]; a later stage cannot be called on a
//! value that has not passed the earlier ones, by construction.

use vstd::prelude::*;
use vstd::string::StringExecFns;

use crate::error::CompositionError;
use crate::error::CompositionErrorView;
use crate::error::invalid_link_import_message;
use crate::error::make_invalid_link_import_message;
use crate::model::FieldDef;
use crate::model::FieldDefView;
use crate::model::FieldSet;
use crate::model::ObjectDef;
use crate::model::SchemaDoc;
use crate::model::SchemaDocView;
use crate::model::TypeDef;
use crate::model::TypeDefView;
use crate::model::contains_name;
use crate::model::is_graphql_name;
use crate::model::lemma_skip_one;
use crate::model::names_view;
use crate::model::opt_string_view;
use crate::model::vec_contains_name;

verus! {

/// Lifecycle state: raw name, routing URL and parsed schema.
pub struct Initial {
    seal: (),
}

/// Lifecycle state: all `@link` imports resolved to federation directives.
pub struct Expanded {
    seal: (),
}

/// Lifecycle state: older federation syntax rewritten to the current form.
pub struct Upgraded {
    seal: (),
}

/// Lifecycle state: passed the federation-specific structural checks.
pub struct Validated {
    seal: (),
}

/// One partial schema contributed by a service, in lifecycle state `S`.
/// Only the transition functions of this module can produce the state
/// values, so a subgraph cannot reach a stage it has not earned.
pub struct Subgraph<S> {
    pub name: String,
    pub routing_url: String,
    pub schema: SchemaDoc,
    /// Directive names imported through `@link`, e.g. `@key`. Emptied once
    /// the imports have been resolved by [`Subgraph::expand_links`].
    pub link_imports: Vec<String>,
    pub state: S,
}

/// Mathematical view of a [`Subgraph`], the same in every lifecycle state.
pub ghost struct SubgraphView {
    pub name: Seq<char>,
    pub routing_url: Seq<char>,
    pub schema: SchemaDocView,
    pub link_imports: Seq<Seq<char>>,
}

impl<S> View for Subgraph<S> {
    type V = SubgraphView;

    open spec fn view(&self) -> SubgraphView {
        SubgraphView {
            name: self.name@,
            routing_url: self.routing_url@,
            schema: self.schema@,
            link_imports: names_view(self.link_imports@),
        }
    }
}

/// Whether `n` names a federation directive that an `@link` may import.
pub open spec fn is_federation_directive_name(n: Seq<char>) -> bool {
    ||| n == "@key"@
    ||| n == "@requires"@
    ||| n == "@provides"@
    ||| n == "@external"@
    ||| n == "@shareable"@
    ||| n == "@override"@
    ||| n == "@tag"@
    ||| n == "@inaccessible"@
}

/// Whether the string names a federation directive that `@link` may import.
pub fn is_federation_import(s: &String) -> (r: bool)
    ensures
        r == is_federation_directive_name(s@),
{
    *s == String::from_str("@key") || *s == String::from_str("@requires") || *s == String::from_str(
        "@provides",
    ) || *s == String::from_str("@external") || *s == String::from_str("@shareable") || *s
        == String::from_str("@override") || *s == String::from_str("@tag") || *s
        == String::from_str("@inaccessible")
}

/// Index of the first `@link` import that is not a federation directive.
pub open spec fn first_bad_import(imports: Seq<Seq<char>>) -> Option<int>
    decreases imports.len(),
{
    if imports.len() == 0 {
        None
    } else if !is_federation_directive_name(imports[0]) {
        Some(0)
    } else {
        match first_bad_import(imports.skip(1)) {
            Some(i) => Some(i + 1),
            None => None,
        }
    }
}

impl Subgraph<Initial> {
    /// A subgraph as supplied by the caller: a unique name, a routing URL,
    /// the parsed schema document, and the `@link` imports it declares.
    pub fn new(
        name: String,
        routing_url: String,
        schema: SchemaDoc,
        link_imports: Vec<String>,
    ) -> (r: Subgraph<Initial>)
        ensures
            r@ == (SubgraphView {
                name: name@,
                routing_url: routing_url@,
                schema: schema@,
                link_imports: names_view(link_imports@),
            }),
    {
        Subgraph { name, routing_url, schema, link_imports, state: Initial { seal: () } }
    }

    /// Resolves the subgraph's `@link` imports: every imported name must be
    /// one of the federation directives, after which the schema needs no
    /// imports any more. An unknown import fails the subgraph.
    pub fn expand_links(self) -> (r: Result<Subgraph<Expanded>, CompositionError>)
        ensures
            r is Ok <==> first_bad_import(self@.link_imports) is None,
            r matches Ok(e) ==> e@ == (SubgraphView {
                name: self@.name,
                routing_url: self@.routing_url,
                schema: self@.schema,
                link_imports: Seq::<Seq<char>>::empty(),
            }),
            r matches Err(err) ==> {
                &&& first_bad_import(self@.link_imports) matches Some(j)
                &&& err@ == (CompositionErrorView::InvalidLinkDirective {
                    message: invalid_link_import_message(self@.link_imports[j]),
                })
            },
    {
        let ghost imports = self@.link_imports;
        proof {
            assert(imports.skip(0) =~= imports);
        }
        let mut ix: usize = 0;
        while ix < self.link_imports.len()
            invariant
                0 <= ix <= self.link_imports.len(),
                imports == names_view(self.link_imports@),
                imports.len() == self.link_imports@.len(),
                first_bad_import(imports) == match first_bad_import(imports.skip(ix as int)) {
                    Some(j) => Some(j + ix as int),
                    None => None,
                },
            decreases self.link_imports.len() - ix,
        {
            proof {
                lemma_skip_one(imports, ix as int);
            }
            if !is_federation_import(&self.link_imports[ix]) {
                assert(imports.skip(ix as int)[0] == imports[ix as int]);
                assert(first_bad_import(imports) == Some(ix as int));
                let message = make_invalid_link_import_message(&self.link_imports[ix]);
                return Err(CompositionError::InvalidLinkDirective { message });
            }
            ix += 1;
        }
        assert(imports.skip(imports.len() as int).len() == 0);
        let resolved: Vec<String> = Vec::new();
        proof {
            assert(names_view(resolved@) =~= Seq::<Seq<char>>::empty());
        }
        Ok(
            Subgraph {
                name: self.name,
                routing_url: self.routing_url,
                schema: self.schema,
                link_imports: resolved,
                state: Expanded { seal: () },
            },
        )
    }
}

impl Subgraph<Expanded> {
    /// Rewrites older federation syntax to the current form. Schemas in this
    /// model are already in the current form, so the subgraph passes through
    /// unchanged into the `Upgraded` state.
    pub fn upgrade(self) -> (r: Subgraph<Upgraded>)
        ensures
            r@ == self@,
    {
        Subgraph {
            name: self.name,
            routing_url: self.routing_url,
            schema: self.schema,
            link_imports: self.link_imports,
            state: Upgraded { seal: () },
        }
    }
}

// ------------------------------------------------------------------
// Federation validation: every `@key` must select fields that exist on its
// type and form a valid selection, and `@requires` / `@provides` selections
// must be well-formed. The specification fixes the first problem found, in
// declaration order, as the reported message.
// ------------------------------------------------------------------
/// Message for a `@key` with an empty field set.
pub open spec fn key_empty_message(t: Seq<char>) -> Seq<char> {
    "Invalid @key on type "@ + t + ": empty field set"@
}

/// Message for a `@key` field that is not a valid GraphQL name.
pub open spec fn key_invalid_name_message(t: Seq<char>, f: Seq<char>) -> Seq<char> {
    "Invalid @key on type "@ + t + ": invalid field name "@ + f
}

/// Message for a `@key` field that the type does not declare.
pub open spec fn key_unknown_field_message(t: Seq<char>, f: Seq<char>) -> Seq<char> {
    "Invalid @key on type "@ + t + ": unknown field "@ + f
}

/// Message for a `@requires` field that is not a valid GraphQL name.
pub open spec fn requires_invalid_name_message(t: Seq<char>, f: Seq<char>, g: Seq<char>) -> Seq<
    char,
> {
    "Invalid @requires on field "@ + t + "."@ + f + ": invalid field name "@ + g
}

/// Message for a `@requires` field that the type does not declare.
pub open spec fn requires_unknown_field_message(t: Seq<char>, f: Seq<char>, g: Seq<char>) -> Seq<
    char,
> {
    "Invalid @requires on field "@ + t + "."@ + f + ": unknown field "@ + g
}

/// Message for a `@provides` field that is not a valid GraphQL name.
pub open spec fn provides_invalid_name_message(t: Seq<char>, f: Seq<char>, g: Seq<char>) -> Seq<
    char,
> {
    "Invalid @provides on field "@ + t + "."@ + f + ": invalid field name "@ + g
}

/// The names of the fields of an object, in declaration order.
pub open spec fn field_names_of(fields: Seq<FieldDefView>) -> Seq<Seq<char>> {
    fields.map(|i: int, f: FieldDefView| f.name)
}

/// First problem within one `@key` field set, scanned front to back.
pub open spec fn key_fields_problem(t: Seq<char>, fnames: Seq<Seq<char>>, k: Seq<Seq<char>>) -> Option<
    Seq<char>,
>
    decreases k.len(),
{
    if k.len() == 0 {
        None
    } else if !is_graphql_name(k[0]) {
        Some(key_invalid_name_message(t, k[0]))
    } else if !contains_name(fnames, k[0]) {
        Some(key_unknown_field_message(t, k[0]))
    } else {
        key_fields_problem(t, fnames, k.skip(1))
    }
}

/// First problem among the `@key` field sets of a type.
pub open spec fn keys_problem(t: Seq<char>, fnames: Seq<Seq<char>>, keys: Seq<Seq<Seq<char>>>) -> Option<
    Seq<char>,
>
    decreases keys.len(),
{
    if keys.len() == 0 {
        None
    } else if keys[0].len() == 0 {
        Some(key_empty_message(t))
    } else {
        match key_fields_problem(t, fnames, keys[0]) {
            Some(m) => Some(m),
            None => keys_problem(t, fnames, keys.skip(1)),
        }
    }
}

/// First problem within one `@requires` field set.
pub open spec fn requires_problem(
    t: Seq<char>,
    fnames: Seq<Seq<char>>,
    f: Seq<char>,
    rq: Seq<Seq<char>>,
) -> Option<Seq<char>>
    decreases rq.len(),
{
    if rq.len() == 0 {
        None
    } else if !is_graphql_name(rq[0]) {
        Some(requires_invalid_name_message(t, f, rq[0]))
    } else if !contains_name(fnames, rq[0]) {
        Some(requires_unknown_field_message(t, f, rq[0]))
    } else {
        requires_problem(t, fnames, f, rq.skip(1))
    }
}

/// First problem within one `@provides` field set: only name syntax is
/// checked here, since the selected fields belong to the returned type,
/// which another subgraph may declare.
pub open spec fn provides_problem(t: Seq<char>, f: Seq<char>, pv: Seq<Seq<char>>) -> Option<
    Seq<char>,
>
    decreases pv.len(),
{
    if pv.len() == 0 {
        None
    } else if !is_graphql_name(pv[0]) {
        Some(provides_invalid_name_message(t, f, pv[0]))
    } else {
        provides_problem(t, f, pv.skip(1))
    }
}

/// First problem on one field: its `@requires`, then its `@provides`.
pub open spec fn field_problem(t: Seq<char>, fnames: Seq<Seq<char>>, f: FieldDefView) -> Option<
    Seq<char>,
> {
    match (match f.requires {
        Some(rq) => requires_problem(t, fnames, f.name, rq),
        None => None,
    }) {
        Some(m) => Some(m),
        None => match f.provides {
            Some(pv) => provides_problem(t, f.name, pv),
            None => None,
        },
    }
}

/// First problem among the fields of a type, in declaration order.
pub open spec fn fields_problem(
    t: Seq<char>,
    fnames: Seq<Seq<char>>,
    fields: Seq<FieldDefView>,
) -> Option<Seq<char>>
    decreases fields.len(),
{
    if fields.len() == 0 {
        None
    } else {
        match field_problem(t, fnames, fields[0]) {
            Some(m) => Some(m),
            None => fields_problem(t, fnames, fields.skip(1)),
        }
    }
}

/// First problem of one type declaration. Only object and interface types
/// carry field sets to check.
pub open spec fn type_problem(t: TypeDefView) -> Option<Seq<char>> {
    match t {
        TypeDefView::Object(o) => match keys_problem(o.name, field_names_of(o.fields), o.keys) {
            Some(m) => Some(m),
            None => fields_problem(o.name, field_names_of(o.fields), o.fields),
        },
        TypeDefView::Enum(_) => None,
        TypeDefView::Union(_) => None,
    }
}

/// First problem among the type declarations of a document.
pub open spec fn types_problem(ts: Seq<TypeDefView>) -> Option<Seq<char>>
    decreases ts.len(),
{
    if ts.len() == 0 {
        None
    } else {
        match type_problem(ts[0]) {
            Some(m) => Some(m),
            None => types_problem(ts.skip(1)),
        }
    }
}

/// The first federation problem of a schema document, if any. A document
/// with no problem satisfies the federation requirements checked at the
/// `Validated` transition.
pub open spec fn subgraph_schema_problem(d: SchemaDocView) -> Option<Seq<char>> {
    types_problem(d.types)
}

/// The names of the fields of an object, as owned strings.
pub(crate) fn field_name_vec(fields: &Vec<FieldDef>) -> (r: Vec<String>)
    ensures
        names_view(r@) == field_names_of(fields@.map(|i: int, f: FieldDef| f@)),
{
    let ghost target = field_names_of(fields@.map(|i: int, f: FieldDef| f@));
    let mut out: Vec<String> = Vec::new();
    let mut ix: usize = 0;
    while ix < fields.len()
        invariant
            0 <= ix <= fields.len(),
            target == field_names_of(fields@.map(|i: int, f: FieldDef| f@)),
            target.len() == fields@.len(),
            names_view(out@) =~= target.subrange(0, ix as int),
        decreases fields.len() - ix,
    {
        let ghost prev = out@;
        let nm = fields[ix].name.clone();
        let ghost nv = nm@;
        out.push(nm);
        proof {
            assert(names_view(prev).len() == prev.len());
            assert(prev.len() == ix);
            assert(out@[ix as int]@ == nv);
            assert(names_view(out@)[ix as int] == nv);
            assert(target[ix as int] == fields@[ix as int].name@);
            assert(names_view(out@) =~= target.subrange(0, (ix + 1) as int));
        }
        ix += 1;
    }
    assert(target.subrange(0, target.len() as int) == target);
    out
}

/// First problem within one parsed field set used as a `@key`.
fn key_fields_first_problem(t: &String, fnames: &Vec<String>, k: &FieldSet) -> (r: Option<String>)
    ensures
        opt_string_view(r) == key_fields_problem(t@, names_view(fnames@), k@),
{
    let ghost fnv = names_view(fnames@);
    let ghost kv = k@;
    proof {
        assert(kv.skip(0) =~= kv);
    }
    let mut ix: usize = 0;
    while ix < k.fields.len()
        invariant
            0 <= ix <= k.fields.len(),
            fnv == names_view(fnames@),
            kv == k@,
            kv.len() == k.fields@.len(),
            key_fields_problem(t@, fnv, kv) == key_fields_problem(t@, fnv, kv.skip(ix as int)),
        decreases k.fields.len() - ix,
    {
        proof {
            lemma_skip_one(kv, ix as int);
        }
        let name = &k.fields[ix];
        assert(kv.skip(ix as int)[0] == kv[ix as int] && kv[ix as int] == name@);
        if !apollo_compiler::Name::is_valid_syntax(name.as_str()) {
            let message = String::from_str("Invalid @key on type ").concat(t.as_str()).concat(
                ": invalid field name ",
            ).concat(name.as_str());
            return Some(message);
        }
        if !vec_contains_name(fnames, name) {
            let message = String::from_str("Invalid @key on type ").concat(t.as_str()).concat(
                ": unknown field ",
            ).concat(name.as_str());
            return Some(message);
        }
        ix += 1;
    }
    assert(kv.skip(kv.len() as int).len() == 0);
    None
}

/// First problem within one `@requires` field set.
fn requires_first_problem(t: &String, fnames: &Vec<String>, f: &String, rq: &FieldSet) -> (r:
    Option<String>)
    ensures
        opt_string_view(r) == requires_problem(t@, names_view(fnames@), f@, rq@),
{
    let ghost fnv = names_view(fnames@);
    let ghost rv = rq@;
    proof {
        assert(rv.skip(0) =~= rv);
    }
    let mut ix: usize = 0;
    while ix < rq.fields.len()
        invariant
            0 <= ix <= rq.fields.len(),
            fnv == names_view(fnames@),
            rv == rq@,
            rv.len() == rq.fields@.len(),
            requires_problem(t@, fnv, f@, rv) == requires_problem(
                t@,
                fnv,
                f@,
                rv.skip(ix as int),
            ),
        decreases rq.fields.len() - ix,
    {
        proof {
            lemma_skip_one(rv, ix as int);
        }
        let name = &rq.fields[ix];
        assert(rv.skip(ix as int)[0] == rv[ix as int] && rv[ix as int] == name@);
        if !apollo_compiler::Name::is_valid_syntax(name.as_str()) {
            let message = String::from_str("Invalid @requires on field ").concat(t.as_str()).concat(
                ".",
            ).concat(f.as_str()).concat(": invalid field name ").concat(name.as_str());
            return Some(message);
        }
        if !vec_contains_name(fnames, name) {
            let message = String::from_str("Invalid @requires on field ").concat(t.as_str()).concat(
                ".",
            ).concat(f.as_str()).concat(": unknown field ").concat(name.as_str());
            return Some(message);
        }
        ix += 1;
    }
    assert(rv.skip(rv.len() as int).len() == 0);
    None
}

/// First problem within one `@provides` field set.
fn provides_first_problem(t: &String, f: &String, pv: &FieldSet) -> (r: Option<String>)
    ensures
        opt_string_view(r) == provides_problem(t@, f@, pv@),
{
    let ghost pvv = pv@;
    proof {
        assert(pvv.skip(0) =~= pvv);
    }
    let mut ix: usize = 0;
    while ix < pv.fields.len()
        invariant
            0 <= ix <= pv.fields.len(),
            pvv == pv@,
            pvv.len() == pv.fields@.len(),
            provides_problem(t@, f@, pvv) == provides_problem(t@, f@, pvv.skip(ix as int)),
        decreases pv.fields.len() - ix,
    {
        proof {
            lemma_skip_one(pvv, ix as int);
        }
        let name = &pv.fields[ix];
        assert(pvv.skip(ix as int)[0] == pvv[ix as int] && pvv[ix as int] == name@);
        if !apollo_compiler::Name::is_valid_syntax(name.as_str()) {
            let message = String::from_str("Invalid @provides on field ").concat(t.as_str()).concat(
                ".",
            ).concat(f.as_str()).concat(": invalid field name ").concat(name.as_str());
            return Some(message);
        }
        ix += 1;
    }
    assert(pvv.skip(pvv.len() as int).len() == 0);
    None
}

/// First problem of one object or interface declaration.
fn object_first_problem(o: &ObjectDef) -> (r: Option<String>)
    ensures
        opt_string_view(r) == type_problem(TypeDefView::Object(o@)),
{
    let ghost ov = o@;
    let ghost fnv = field_names_of(ov.fields);
    let fnames = field_name_vec(&o.fields);
    proof {
        assert(ov.keys.skip(0) =~= ov.keys);
    }
    // `@key` field sets first, in declaration order.
    let mut ix: usize = 0;
    while ix < o.keys.len()
        invariant
            0 <= ix <= o.keys.len(),
            ov == o@,
            names_view(fnames@) == fnv,
            fnv == field_names_of(ov.fields),
            ov.keys.len() == o.keys@.len(),
            keys_problem(ov.name, fnv, ov.keys) == keys_problem(
                ov.name,
                fnv,
                ov.keys.skip(ix as int),
            ),
        decreases o.keys.len() - ix,
    {
        proof {
            lemma_skip_one(ov.keys, ix as int);
        }
        let k = &o.keys[ix];
        assert(ov.keys.skip(ix as int)[0] == ov.keys[ix as int] && ov.keys[ix as int] == k@);
        if k.fields.len() == 0 {
            let message = String::from_str("Invalid @key on type ").concat(o.name.as_str()).concat(
                ": empty field set",
            );
            return Some(message);
        }
        let problem = key_fields_first_problem(&o.name, &fnames, k);
        if let Some(message) = problem {
            return Some(message);
        }
        ix += 1;
    }
    assert(ov.keys.skip(ov.keys.len() as int).len() == 0);
    assert(keys_problem(ov.name, fnv, ov.keys) is None);
    // Then each field's `@requires` and `@provides`.
    proof {
        assert(ov.fields.skip(0) =~= ov.fields);
    }
    let mut fx: usize = 0;
    while fx < o.fields.len()
        invariant
            0 <= fx <= o.fields.len(),
            ov == o@,
            names_view(fnames@) == fnv,
            fnv == field_names_of(ov.fields),
            ov.fields.len() == o.fields@.len(),
            keys_problem(ov.name, fnv, ov.keys) is None,
            fields_problem(ov.name, fnv, ov.fields) == fields_problem(
                ov.name,
                fnv,
                ov.fields.skip(fx as int),
            ),
        decreases o.fields.len() - fx,
    {
        proof {
            lemma_skip_one(ov.fields, fx as int);
        }
        let f = &o.fields[fx];
        assert(ov.fields.skip(fx as int)[0] == ov.fields[fx as int] && ov.fields[fx as int] == f@);
        if let Some(rq) = &f.requires {
            let problem = requires_first_problem(&o.name, &fnames, &f.name, rq);
            if let Some(message) = problem {
                assert(field_problem(ov.name, fnv, f@) == Some(message@));
                return Some(message);
            }
        }
        if let Some(pv) = &f.provides {
            let problem = provides_first_problem(&o.name, &f.name, pv);
            if let Some(message) = problem {
                assert(field_problem(ov.name, fnv, f@) == Some(message@));
                return Some(message);
            }
        }
        assert(field_problem(ov.name, fnv, f@) is None);
        fx += 1;
    }
    assert(ov.fields.skip(ov.fields.len() as int).len() == 0);
    None
}

/// The first federation problem of a schema document, if any.
pub fn schema_first_problem(doc: &SchemaDoc) -> (r: Option<String>)
    ensures
        opt_string_view(r) == subgraph_schema_problem(doc@),
{
    let ghost tsv = doc@.types;
    proof {
        assert(tsv.skip(0) =~= tsv);
    }
    let mut ix: usize = 0;
    while ix < doc.types.len()
        invariant
            0 <= ix <= doc.types.len(),
            tsv == doc@.types,
            tsv.len() == doc.types@.len(),
            types_problem(tsv) == types_problem(tsv.skip(ix as int)),
        decreases doc.types.len() - ix,
    {
        proof {
            lemma_skip_one(tsv, ix as int);
        }
        let t = &doc.types[ix];
        assert(tsv.skip(ix as int)[0] == tsv[ix as int] && tsv[ix as int] == t@);
        if let TypeDef::Object(o) = t {
            let problem = object_first_problem(o);
            if let Some(message) = problem {
                return Some(message);
            }
        } else {
            assert(type_problem(t@) is None);
        }
        ix += 1;
    }
    assert(tsv.skip(tsv.len() as int).len() == 0);
    None
}

impl Subgraph<Upgraded> {
    /// Checks the federation requirements on the schema: every `@key`
    /// selects existing fields and forms a valid selection, and `@requires`
    /// / `@provides` selections are well-formed. The first problem found,
    /// in declaration order, is reported.
    pub fn validate(self) -> (r: Result<Subgraph<Validated>, CompositionError>)
        ensures
            r is Ok <==> subgraph_schema_problem(self@.schema) is None,
            r matches Ok(v) ==> v@ == self@,
            r matches Err(err) ==> {
                &&& subgraph_schema_problem(self@.schema) matches Some(m)
                &&& err@ == (CompositionErrorView::InvalidFieldSet { message: m })
            },
    {
        let problem = schema_first_problem(&self.schema);
        match problem {
            None => Ok(
                Subgraph {
                    name: self.name,
                    routing_url: self.routing_url,
                    schema: self.schema,
                    link_imports: self.link_imports,
                    state: Validated { seal: () },
                },
            ),
            Some(message) => Err(CompositionError::InvalidFieldSet { message }),
        }
    }
}

} // verus!
