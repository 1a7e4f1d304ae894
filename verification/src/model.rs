//! The schema document model: the data that composition works on.
//!
//! Schemas arrive already parsed (turning GraphQL text into this form is a
//! collaborator's job); this module holds the structured form of a schema
//! document that the merge engine and the satisfiability validator read.
//! Federation directives are represented structurally: `@key` as parsed
//! field sets on a type, `@external` / `@shareable` / `@requires` /
//! `@provides` as markers on a field.

use vstd::prelude::*;
use vstd::string::StrSliceExecFns;
use vstd::string::StringExecFns;

verus! {

/// Mathematical view of a sequence of names.
pub open spec fn names_view(s: Seq<String>) -> Seq<Seq<char>> {
    s.map(|i: int, x: String| x@)
}

/// Whether a sequence of name views contains the given name.
pub open spec fn contains_name(s: Seq<Seq<char>>, n: Seq<char>) -> bool {
    exists|i: int| 0 <= i < s.len() && s[i] == n
}

/// A parsed `@key`-style field selection: the names of the selected fields.
pub struct FieldSet {
    pub fields: Vec<String>,
}

impl View for FieldSet {
    type V = Seq<Seq<char>>;

    open spec fn view(&self) -> Seq<Seq<char>> {
        names_view(self.fields@)
    }
}

impl FieldSet {
    /// A field set selecting exactly the given fields.
    pub fn new(fields: Vec<String>) -> (r: FieldSet)
        ensures
            r@ == names_view(fields@),
    {
        FieldSet { fields }
    }
}

/// Whether `c` separates field names in a selection: whitespace, or the
/// comma that GraphQL treats as insignificant.
pub open spec fn is_selection_separator(c: char) -> bool {
    c == ' ' || c == '\t' || c == '\n' || c == '\r' || c == ','
}

/// The length of the leading field name of `s`: the characters before the
/// first separator.
pub open spec fn token_len(s: Seq<char>) -> int
    decreases s.len(),
{
    if s.len() == 0 || is_selection_separator(s[0]) {
        0
    } else {
        1 + token_len(s.skip(1))
    }
}

/// The leading token is never longer than the text.
pub proof fn lemma_token_len_bounds(s: Seq<char>)
    ensures
        0 <= token_len(s) <= s.len(),
    decreases s.len(),
{
    if s.len() > 0 && !is_selection_separator(s[0]) {
        lemma_token_len_bounds(s.skip(1));
    }
}

/// If the first `m` characters are not separators and position `m` is the
/// end or a separator, the leading token has length `m`.
pub proof fn lemma_token_len_exact(s: Seq<char>, m: int)
    requires
        0 <= m <= s.len(),
        forall|k: int| 0 <= k < m ==> !is_selection_separator(s[k]),
        m == s.len() || is_selection_separator(s[m]),
    ensures
        token_len(s) == m,
    decreases m,
{
    if m > 0 {
        assert(!is_selection_separator(s[0]));
        lemma_token_len_exact(s.skip(1), m - 1);
    }
}

/// The field names of a selection text, in order: maximal runs of
/// non-separator characters.
pub open spec fn selection_tokens(s: Seq<char>) -> Seq<Seq<char>>
    decreases s.len(),
    via selection_tokens_decreases
{
    if s.len() == 0 {
        Seq::empty()
    } else if is_selection_separator(s[0]) {
        selection_tokens(s.skip(1))
    } else {
        seq![s.subrange(0, token_len(s))] + selection_tokens(s.skip(token_len(s)))
    }
}

#[via_fn]
proof fn selection_tokens_decreases(s: Seq<char>) {
    if s.len() > 0 && !is_selection_separator(s[0]) {
        lemma_token_len_bounds(s.skip(1));
        assert(token_len(s) == 1 + token_len(s.skip(1)));
        lemma_token_len_bounds(s);
    }
}

/// The first token of a selection that is not a valid GraphQL name.
pub open spec fn first_invalid_token(tokens: Seq<Seq<char>>) -> Option<Seq<char>>
    decreases tokens.len(),
{
    if tokens.len() == 0 {
        None
    } else if !is_graphql_name(tokens[0]) {
        Some(tokens[0])
    } else {
        first_invalid_token(tokens.skip(1))
    }
}

/// Message reported for a selection token that is not a valid name.
pub open spec fn invalid_selection_message(t: Seq<char>) -> Seq<char> {
    "Invalid field name in selection: "@ + t
}

/// A valid prefix does not change which token is the first invalid one.
pub proof fn lemma_first_invalid_concat(a: Seq<Seq<char>>, b: Seq<Seq<char>>)
    requires
        forall|k: int| 0 <= k < a.len() ==> is_graphql_name(#[trigger] a[k]),
    ensures
        first_invalid_token(a + b) == first_invalid_token(b),
    decreases a.len(),
{
    if a.len() == 0 {
        assert(a + b =~= b);
    } else {
        assert((a + b)[0] == a[0]);
        assert((a + b).skip(1) =~= a.skip(1) + b);
        assert forall|k: int| 0 <= k < a.skip(1).len() implies is_graphql_name(
            #[trigger] a.skip(1)[k],
        ) by {
            assert(a.skip(1)[k] == a[k + 1]);
        }
        lemma_first_invalid_concat(a.skip(1), b);
    }
}

/// Whether `c` separates field names, decided in code.
fn is_separator_char(c: char) -> (r: bool)
    ensures
        r == is_selection_separator(c),
{
    c == ' ' || c == '\t' || c == '\n' || c == '\r' || c == ','
}

impl FieldSet {
    /// Parses a `@key`-style selection text into a field set: names
    /// separated by whitespace or commas, each a valid GraphQL name. The
    /// first token that is not a valid name is rejected.
    pub fn parse(text: &str) -> (r: Result<FieldSet, crate::error::CompositionError>)
        ensures
            r is Ok <==> first_invalid_token(selection_tokens(text@)) is None,
            r matches Ok(fs) ==> fs@ == selection_tokens(text@),
            r matches Err(e) ==> {
                &&& first_invalid_token(selection_tokens(text@)) matches Some(t)
                &&& e@ == (crate::error::CompositionErrorView::InvalidFieldSet {
                    message: invalid_selection_message(t),
                })
            },
    {
        let ghost sv = text@;
        let n = text.unicode_len();
        let mut fields: Vec<String> = Vec::new();
        proof {
            assert(sv.skip(0) =~= sv);
            assert(names_view(fields@) =~= Seq::<Seq<char>>::empty());
            assert(names_view(fields@) + selection_tokens(sv) =~= selection_tokens(sv));
        }
        let mut i: usize = 0;
        while i < n
            invariant
                0 <= i <= n,
                n == sv.len(),
                sv == text@,
                selection_tokens(sv) == names_view(fields@) + selection_tokens(sv.skip(i as int)),
                forall|k: int|
                    0 <= k < fields@.len() ==> is_graphql_name(#[trigger] names_view(fields@)[k]),
            decreases n - i,
        {
            let c = text.get_char(i);
            if is_separator_char(c) {
                proof {
                    lemma_skip_one(sv, i as int);
                    assert(is_selection_separator(sv.skip(i as int)[0]));
                    assert(selection_tokens(sv.skip(i as int)) == selection_tokens(
                        sv.skip(i as int + 1),
                    ));
                }
                i += 1;
            } else {
                let start = i;
                let mut j = i;
                while j < n && !(is_separator_char(text.get_char(j)))
                    invariant
                        start <= j <= n,
                        n == sv.len(),
                        sv == text@,
                        forall|k: int| start <= k < j ==> !is_selection_separator(sv[k]),
                    decreases n - j,
                {
                    j += 1;
                }
                proof {
                    assert forall|k: int|
                        0 <= k < j - start implies !is_selection_separator(
                        sv.skip(start as int)[k],
                    ) by {
                        assert(sv.skip(start as int)[k] == sv[start + k]);
                    }
                    if j < n {
                        assert(sv.skip(start as int)[j - start] == sv[j as int]);
                    }
                    lemma_token_len_exact(sv.skip(start as int), j - start);
                    assert(sv.skip(start as int).subrange(0, (j - start) as int) =~= sv.subrange(
                        start as int,
                        j as int,
                    ));
                    assert(sv.skip(start as int).skip((j - start) as int) =~= sv.skip(j as int));
                    assert(!is_selection_separator(sv.skip(start as int)[0]));
                    assert(selection_tokens(sv.skip(start as int)) == seq![
                        sv.subrange(start as int, j as int),
                    ] + selection_tokens(sv.skip(j as int)));
                }
                let tok = text.substring_char(start, j).to_owned();
                let ghost tv = tok@;
                assert(tv == sv.subrange(start as int, j as int));
                if !apollo_compiler::Name::is_valid_syntax(tok.as_str()) {
                    proof {
                        lemma_first_invalid_concat(
                            names_view(fields@),
                            selection_tokens(sv.skip(start as int)),
                        );
                        assert(selection_tokens(sv.skip(start as int))[0] == tv);
                        assert(first_invalid_token(selection_tokens(sv)) == Some(tv));
                    }
                    let message = String::from_str("Invalid field name in selection: ").concat(
                        tok.as_str(),
                    );
                    return Err(crate::error::CompositionError::InvalidFieldSet { message });
                }
                let ghost prev = fields@;
                fields.push(tok);
                proof {
                    assert(names_view(prev).len() == prev.len());
                    assert(fields@[prev.len() as int]@ == tv);
                    assert(names_view(fields@) =~= names_view(prev).push(tv));
                    assert(names_view(prev) + (seq![tv] + selection_tokens(sv.skip(j as int)))
                        =~= names_view(fields@) + selection_tokens(sv.skip(j as int)));
                    assert forall|k: int|
                        0 <= k < fields@.len() implies is_graphql_name(
                        #[trigger] names_view(fields@)[k],
                    ) by {
                        if k < prev.len() {
                            assert(names_view(fields@)[k] == names_view(prev)[k]);
                        } else {
                            assert(names_view(fields@)[k] == tv);
                        }
                    }
                }
                i = j;
            }
        }
        proof {
            assert(sv.skip(n as int).len() == 0);
            assert(selection_tokens(sv.skip(n as int)) =~= Seq::<Seq<char>>::empty());
            assert(selection_tokens(sv) =~= names_view(fields@));
            lemma_first_invalid_concat(names_view(fields@), Seq::empty());
            assert(names_view(fields@) + Seq::<Seq<char>>::empty() =~= names_view(fields@));
        }
        Ok(FieldSet { fields })
    }
}

/// The declared type of a field: a named base type with list and
/// non-null modifiers.
pub struct FieldType {
    /// Name of the base type, e.g. `String` or `Product`.
    pub base: String,
    /// Whether the overall type is non-null (`T!` or `[T]!`).
    pub non_null: bool,
    /// Whether the type is a list (`[T]`).
    pub list: bool,
}

/// Mathematical view of a [`FieldType`].
pub ghost struct FieldTypeView {
    pub base: Seq<char>,
    pub non_null: bool,
    pub list: bool,
}

impl View for FieldType {
    type V = FieldTypeView;

    open spec fn view(&self) -> FieldTypeView {
        FieldTypeView { base: self.base@, non_null: self.non_null, list: self.list }
    }
}

impl FieldType {
    /// A copy of this field type.
    pub fn duplicate(&self) -> (r: FieldType)
        ensures
            r@ == self@,
    {
        FieldType { base: self.base.clone(), non_null: self.non_null, list: self.list }
    }
}

/// One field of an object or interface type, with its federation markers.
pub struct FieldDef {
    pub name: String,
    pub ty: FieldType,
    /// `@external`: declared here only as a reference; resolved elsewhere.
    pub external: bool,
    /// `@shareable`: may be resolved by more than one subgraph.
    pub shareable: bool,
    /// `@requires`: fields of the same type that must be fetched first.
    pub requires: Option<FieldSet>,
    /// `@provides`: fields of the returned type this subgraph can supply.
    pub provides: Option<FieldSet>,
}

/// Mathematical view of a [`FieldDef`].
pub ghost struct FieldDefView {
    pub name: Seq<char>,
    pub ty: FieldTypeView,
    pub external: bool,
    pub shareable: bool,
    pub requires: Option<Seq<Seq<char>>>,
    pub provides: Option<Seq<Seq<char>>>,
}

/// Mathematical view of an optional field set.
pub open spec fn opt_field_set_view(o: Option<FieldSet>) -> Option<Seq<Seq<char>>> {
    match o {
        Some(fs) => Some(fs@),
        None => None,
    }
}

/// Mathematical view of an optional string.
pub open spec fn opt_string_view(o: Option<String>) -> Option<Seq<char>> {
    match o {
        Some(s) => Some(s@),
        None => None,
    }
}

impl View for FieldDef {
    type V = FieldDefView;

    open spec fn view(&self) -> FieldDefView {
        FieldDefView {
            name: self.name@,
            ty: self.ty@,
            external: self.external,
            shareable: self.shareable,
            requires: opt_field_set_view(self.requires),
            provides: opt_field_set_view(self.provides),
        }
    }
}

impl FieldDef {
    /// A copy of this field with every federation marker removed.
    pub fn stripped(&self) -> (r: FieldDef)
        ensures
            r@ == (FieldDefView {
                name: self@.name,
                ty: self@.ty,
                external: false,
                shareable: false,
                requires: None,
                provides: None,
            }),
    {
        FieldDef {
            name: self.name.clone(),
            ty: self.ty.duplicate(),
            external: false,
            shareable: false,
            requires: None,
            provides: None,
        }
    }
}

/// An object or interface type: named fields, plus any `@key` field sets.
pub struct ObjectDef {
    pub name: String,
    pub description: Option<String>,
    /// `true` for `interface` declarations, `false` for `type`.
    pub is_interface: bool,
    pub fields: Vec<FieldDef>,
    /// The `@key` directives of the type, one parsed field set each.
    pub keys: Vec<FieldSet>,
}

/// Mathematical view of an [`ObjectDef`].
pub ghost struct ObjectDefView {
    pub name: Seq<char>,
    pub description: Option<Seq<char>>,
    pub is_interface: bool,
    pub fields: Seq<FieldDefView>,
    pub keys: Seq<Seq<Seq<char>>>,
}

impl View for ObjectDef {
    type V = ObjectDefView;

    open spec fn view(&self) -> ObjectDefView {
        ObjectDefView {
            name: self.name@,
            description: opt_string_view(self.description),
            is_interface: self.is_interface,
            fields: self.fields@.map(|i: int, f: FieldDef| f@),
            keys: self.keys@.map(|i: int, k: FieldSet| k@),
        }
    }
}

/// An enum type and its declared values.
pub struct EnumDef {
    pub name: String,
    pub description: Option<String>,
    pub values: Vec<String>,
}

/// Mathematical view of an [`EnumDef`].
pub ghost struct EnumDefView {
    pub name: Seq<char>,
    pub description: Option<Seq<char>>,
    pub values: Seq<Seq<char>>,
}

impl View for EnumDef {
    type V = EnumDefView;

    open spec fn view(&self) -> EnumDefView {
        EnumDefView {
            name: self.name@,
            description: opt_string_view(self.description),
            values: names_view(self.values@),
        }
    }
}

/// A union type and its declared members.
pub struct UnionDef {
    pub name: String,
    pub description: Option<String>,
    pub members: Vec<String>,
}

/// Mathematical view of a [`UnionDef`].
pub ghost struct UnionDefView {
    pub name: Seq<char>,
    pub description: Option<Seq<char>>,
    pub members: Seq<Seq<char>>,
}

impl View for UnionDef {
    type V = UnionDefView;

    open spec fn view(&self) -> UnionDefView {
        UnionDefView {
            name: self.name@,
            description: opt_string_view(self.description),
            members: names_view(self.members@),
        }
    }
}

/// One named type declaration of a schema document.
pub enum TypeDef {
    Object(ObjectDef),
    Enum(EnumDef),
    Union(UnionDef),
}

/// Mathematical view of a [`TypeDef`].
pub ghost enum TypeDefView {
    Object(ObjectDefView),
    Enum(EnumDefView),
    Union(UnionDefView),
}

impl View for TypeDef {
    type V = TypeDefView;

    open spec fn view(&self) -> TypeDefView {
        match self {
            TypeDef::Object(o) => TypeDefView::Object(o@),
            TypeDef::Enum(e) => TypeDefView::Enum(e@),
            TypeDef::Union(u) => TypeDefView::Union(u@),
        }
    }
}

impl TypeDefView {
    /// The declared name of the type.
    pub open spec fn name(self) -> Seq<char> {
        match self {
            TypeDefView::Object(o) => o.name,
            TypeDefView::Enum(e) => e.name,
            TypeDefView::Union(u) => u.name,
        }
    }

    /// The description attached to the declaration, if any.
    pub open spec fn description(self) -> Option<Seq<char>> {
        match self {
            TypeDefView::Object(o) => o.description,
            TypeDefView::Enum(e) => e.description,
            TypeDefView::Union(u) => u.description,
        }
    }
}

impl TypeDef {
    /// The declared name of the type.
    pub fn name(&self) -> (r: &String)
        ensures
            r@ == self@.name(),
    {
        match self {
            TypeDef::Object(o) => &o.name,
            TypeDef::Enum(e) => &e.name,
            TypeDef::Union(u) => &u.name,
        }
    }

    /// The description attached to the declaration, if any.
    pub fn description(&self) -> (r: &Option<String>)
        ensures
            opt_string_view(*r) == self@.description(),
    {
        match self {
            TypeDef::Object(o) => &o.description,
            TypeDef::Enum(e) => &e.description,
            TypeDef::Union(u) => &u.description,
        }
    }
}

/// A schema document: an optional query root type name and the named type
/// declarations, in declaration order.
pub struct SchemaDoc {
    pub query_root: Option<String>,
    pub types: Vec<TypeDef>,
}

/// Mathematical view of a [`SchemaDoc`].
pub ghost struct SchemaDocView {
    pub query_root: Option<Seq<char>>,
    pub types: Seq<TypeDefView>,
}

impl View for SchemaDoc {
    type V = SchemaDocView;

    open spec fn view(&self) -> SchemaDocView {
        SchemaDocView {
            query_root: opt_string_view(self.query_root),
            types: self.types@.map(|i: int, t: TypeDef| t@),
        }
    }
}

impl SchemaDoc {
    /// A document with the given query root and type declarations.
    pub fn new(query_root: Option<String>, types: Vec<TypeDef>) -> (r: SchemaDoc)
        ensures
            r@ == (SchemaDocView {
                query_root: opt_string_view(query_root),
                types: types@.map(|i: int, t: TypeDef| t@),
            }),
    {
        SchemaDoc { query_root, types }
    }
}

/// First index of a type with the given name, if any.
pub open spec fn first_type_index(ts: Seq<TypeDefView>, n: Seq<char>) -> Option<int>
    decreases ts.len(),
{
    if ts.len() == 0 {
        None
    } else if ts[0].name() == n {
        Some(0)
    } else {
        match first_type_index(ts.skip(1), n) {
            Some(i) => Some(i + 1),
            None => None,
        }
    }
}

/// A name occurs among the type declarations exactly when
/// [`first_type_index`] finds it, and what it finds is a match.
pub proof fn lemma_first_type_index(ts: Seq<TypeDefView>, n: Seq<char>)
    ensures
        first_type_index(ts, n) matches Some(i) ==> 0 <= i < ts.len() && ts[i].name() == n,
        first_type_index(ts, n) is None ==> forall|i: int|
            0 <= i < ts.len() ==> ts[i].name() != n,
    decreases ts.len(),
{
    if ts.len() > 0 {
        lemma_first_type_index(ts.skip(1), n);
        if first_type_index(ts, n) is None {
            assert forall|i: int| 0 <= i < ts.len() implies ts[i].name() != n by {
                if i > 0 {
                    assert(ts.skip(1)[i - 1] == ts[i]);
                }
            }
        }
    }
}

/// Reference to the first type declaration named `n`, if any.
pub fn find_type<'a>(types: &'a Vec<TypeDef>, n: &String) -> (r: Option<&'a TypeDef>)
    ensures
        match r {
            Some(t) => {
                &&& first_type_index(types@.map(|i: int, t: TypeDef| t@), n@) matches Some(j)
                &&& t@ == types@.map(|i: int, t: TypeDef| t@)[j]
            },
            None => first_type_index(types@.map(|i: int, t: TypeDef| t@), n@) is None,
        },
{
    let ghost tsv = types@.map(|i: int, t: TypeDef| t@);
    let mut ix: usize = 0;
    while ix < types.len()
        invariant
            0 <= ix <= types.len(),
            tsv == types@.map(|i: int, t: TypeDef| t@),
            forall|i: int| 0 <= i < ix ==> tsv[i].name() != n@,
        decreases types.len() - ix,
    {
        let t = &types[ix];
        if *t.name() == *n {
            proof {
                lemma_first_index_found(tsv, n@, ix as int);
            }
            return Some(t);
        }
        ix += 1;
    }
    proof {
        lemma_first_type_index(tsv, n@);
    }
    None
}

/// If every earlier type has a different name and position `k` matches,
/// then `k` is the first index for that name.
pub proof fn lemma_first_index_found(ts: Seq<TypeDefView>, n: Seq<char>, k: int)
    requires
        0 <= k < ts.len(),
        ts[k].name() == n,
        forall|i: int| 0 <= i < k ==> ts[i].name() != n,
    ensures
        first_type_index(ts, n) == Some(k),
    decreases k,
{
    if k == 0 {
    } else {
        lemma_first_index_found(ts.skip(1), n, k - 1);
    }
}

/// Whether the vector holds a string equal to `n`.
pub fn vec_contains_name(v: &Vec<String>, n: &String) -> (r: bool)
    ensures
        r == contains_name(names_view(v@), n@),
{
    let mut ix: usize = 0;
    while ix < v.len()
        invariant
            0 <= ix <= v.len(),
            forall|i: int| 0 <= i < ix ==> names_view(v@)[i] != n@,
        decreases v.len() - ix,
    {
        if v[ix] == *n {
            assert(names_view(v@)[ix as int] == n@);
            return true;
        }
        ix += 1;
    }
    false
}

/// Whether `c` may start a GraphQL name: an ASCII letter or `_`.
pub open spec fn is_name_start_char(c: char) -> bool {
    ('a' <= c && c <= 'z') || ('A' <= c && c <= 'Z') || c == '_'
}

/// Whether `c` may continue a GraphQL name: an ASCII letter, digit or `_`.
pub open spec fn is_name_continue_char(c: char) -> bool {
    is_name_start_char(c) || ('0' <= c && c <= '9')
}

/// Whether `s` is a valid GraphQL name: non-empty, starting with an ASCII
/// letter or underscore, continuing with ASCII letters, digits or
/// underscores. Any string holding a non-ASCII character is invalid.
pub open spec fn is_graphql_name(s: Seq<char>) -> bool {
    &&& s.len() > 0
    &&& is_name_start_char(s[0])
    &&& forall|i: int| 1 <= i < s.len() ==> is_name_continue_char(s[i])
}

/// Relies on apollo_compiler's `Name::is_valid_syntax`, which accepts exactly
/// the strings whose first byte is an ASCII letter or `_` and whose remaining
/// bytes are ASCII letters, digits or `_`. On ASCII strings bytes and
/// characters coincide, and a string with any non-ASCII character is rejected
/// by both descriptions, so the byte-level check equals [`is_graphql_name`]
/// over the character view.
pub assume_specification[ apollo_compiler::Name::is_valid_syntax ](value: &str) -> (r: bool)
    ensures
        r == is_graphql_name(value@),
;

/// Removing the head of a suffix advances the suffix by one.
pub proof fn lemma_skip_one<A>(s: Seq<A>, i: int)
    requires
        0 <= i < s.len(),
    ensures
        s.skip(i).skip(1) == s.skip(i + 1),
        s.skip(i)[0] == s[i],
        s.skip(i).len() == s.len() - i,
{
    assert(s.skip(i).skip(1) =~= s.skip(i + 1));
}

} // verus!
