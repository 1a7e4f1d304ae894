//! Rendering a schema document as GraphQL SDL text.
//!
//! The text is a function of the document alone, so two equal documents
//! always render to byte-identical text. The merged schema carries no
//! federation directives, and this renderer prints none: the client-facing
//! text never holds `@key`, `@external` or `@shareable` markers.

use vstd::prelude::*;
use vstd::string::StringExecFns;

use crate::model::FieldDef;
use crate::model::FieldDefView;
use crate::model::FieldTypeView;
use crate::model::SchemaDoc;
use crate::model::SchemaDocView;
use crate::model::TypeDef;
use crate::model::TypeDefView;
use crate::model::lemma_skip_one;

verus! {

/// The text of a field type: base name with list and non-null marks.
pub open spec fn render_field_type(t: FieldTypeView) -> Seq<char> {
    (if t.list {
        "["@ + t.base + "]"@
    } else {
        t.base
    }) + (if t.non_null {
        "!"@
    } else {
        Seq::empty()
    })
}

/// The text of a description block, if a description is present.
pub open spec fn render_description(d: Option<Seq<char>>) -> Seq<char> {
    match d {
        Some(text) => "\"\"\""@ + text + "\"\"\"\n"@,
        None => Seq::empty(),
    }
}

/// The text of one field line.
pub open spec fn render_field(f: FieldDefView) -> Seq<char> {
    "  "@ + f.name + ": "@ + render_field_type(f.ty) + "\n"@
}

/// The text of a sequence of field lines.
pub open spec fn render_fields(fs: Seq<FieldDefView>) -> Seq<char>
    decreases fs.len(),
{
    if fs.len() == 0 {
        Seq::empty()
    } else {
        render_field(fs[0]) + render_fields(fs.skip(1))
    }
}

/// The text of a sequence of enum value lines.
pub open spec fn render_values(vs: Seq<Seq<char>>) -> Seq<char>
    decreases vs.len(),
{
    if vs.len() == 0 {
        Seq::empty()
    } else {
        "  "@ + vs[0] + "\n"@ + render_values(vs.skip(1))
    }
}

/// The text of union members joined by ` | `, after the first.
pub open spec fn render_members_rest(ms: Seq<Seq<char>>) -> Seq<char>
    decreases ms.len(),
{
    if ms.len() == 0 {
        Seq::empty()
    } else {
        " | "@ + ms[0] + render_members_rest(ms.skip(1))
    }
}

/// The text of a union member list.
pub open spec fn render_members(ms: Seq<Seq<char>>) -> Seq<char> {
    if ms.len() == 0 {
        Seq::empty()
    } else {
        ms[0] + render_members_rest(ms.skip(1))
    }
}

/// The text of one type declaration.
pub open spec fn render_type(t: TypeDefView) -> Seq<char> {
    match t {
        TypeDefView::Object(o) => render_description(o.description) + (if o.is_interface {
            "interface "@
        } else {
            "type "@
        }) + o.name + " {\n"@ + render_fields(o.fields) + "}\n\n"@,
        TypeDefView::Enum(e) => render_description(e.description) + "enum "@ + e.name + " {\n"@
            + render_values(e.values) + "}\n\n"@,
        TypeDefView::Union(u) => render_description(u.description) + "union "@ + u.name + " = "@
            + render_members(u.members) + "\n\n"@,
    }
}

/// The text of a sequence of type declarations.
pub open spec fn render_types(ts: Seq<TypeDefView>) -> Seq<char>
    decreases ts.len(),
{
    if ts.len() == 0 {
        Seq::empty()
    } else {
        render_type(ts[0]) + render_types(ts.skip(1))
    }
}

/// The SDL text of a whole document, in declaration order.
pub open spec fn render_spec(d: SchemaDocView) -> Seq<char> {
    render_types(d.types)
}

/// Renders one field type.
fn render_field_type_exec(base: &String, non_null: bool, list: bool) -> (r: String)
    ensures
        r@ == render_field_type(
            FieldTypeView { base: base@, non_null: non_null, list: list },
        ),
{
    let mut out = String::new();
    if list {
        out.append("[");
        out.append(base.as_str());
        out.append("]");
    } else {
        out.append(base.as_str());
    }
    if non_null {
        out.append("!");
    }
    proof {
        assert(out@ =~= render_field_type(
            FieldTypeView { base: base@, non_null: non_null, list: list },
        ));
    }
    out
}

/// Renders a description block, if present.
fn render_description_exec(d: &Option<String>) -> (r: String)
    ensures
        r@ == render_description(crate::model::opt_string_view(*d)),
{
    let mut out = String::new();
    match d {
        Some(text) => {
            out.append("\"\"\"");
            out.append(text.as_str());
            out.append("\"\"\"\n");
            proof {
                assert(out@ =~= render_description(crate::model::opt_string_view(*d)));
            }
        },
        None => {
            proof {
                assert(out@ =~= render_description(crate::model::opt_string_view(*d)));
            }
        },
    }
    out
}

/// Renders the field lines of an object or interface.
fn render_fields_exec(fields: &Vec<FieldDef>) -> (r: String)
    ensures
        r@ == render_fields(fields@.map(|i: int, f: FieldDef| f@)),
{
    let ghost fsv = fields@.map(|i: int, f: FieldDef| f@);
    let mut out = String::new();
    proof {
        assert(fsv.skip(0) =~= fsv);
        assert(out@ + render_fields(fsv) =~= render_fields(fsv));
    }
    let mut ix: usize = 0;
    while ix < fields.len()
        invariant
            0 <= ix <= fields.len(),
            fsv == fields@.map(|i: int, f: FieldDef| f@),
            fsv.len() == fields@.len(),
            out@ + render_fields(fsv.skip(ix as int)) == render_fields(fsv),
        decreases fields.len() - ix,
    {
        proof {
            lemma_skip_one(fsv, ix as int);
        }
        assert(fsv.skip(ix as int)[0] == fsv[ix as int] && fsv[ix as int] == fields@[ix as int]@);
        let f = &fields[ix];
        out.append("  ");
        out.append(f.name.as_str());
        out.append(": ");
        let ty = render_field_type_exec(&f.ty.base, f.ty.non_null, f.ty.list);
        out.append(ty.as_str());
        out.append("\n");
        proof {
            assert(out@ + render_fields(fsv.skip(ix + 1 as int)) =~= render_fields(fsv));
        }
        ix += 1;
    }
    assert(fsv.skip(fsv.len() as int).len() == 0);
    proof {
        assert(out@ + render_fields(fsv.skip(fsv.len() as int)) =~= out@);
    }
    out
}

/// Renders the value lines of an enum.
fn render_values_exec(values: &Vec<String>) -> (r: String)
    ensures
        r@ == render_values(crate::model::names_view(values@)),
{
    let ghost vsv = crate::model::names_view(values@);
    let mut out = String::new();
    proof {
        assert(vsv.skip(0) =~= vsv);
        assert(out@ + render_values(vsv) =~= render_values(vsv));
    }
    let mut ix: usize = 0;
    while ix < values.len()
        invariant
            0 <= ix <= values.len(),
            vsv == crate::model::names_view(values@),
            vsv.len() == values@.len(),
            out@ + render_values(vsv.skip(ix as int)) == render_values(vsv),
        decreases values.len() - ix,
    {
        proof {
            lemma_skip_one(vsv, ix as int);
        }
        assert(vsv.skip(ix as int)[0] == vsv[ix as int] && vsv[ix as int] == values@[ix as int]@);
        out.append("  ");
        out.append(values[ix].as_str());
        out.append("\n");
        proof {
            assert(out@ + render_values(vsv.skip(ix + 1 as int)) =~= render_values(vsv));
        }
        ix += 1;
    }
    assert(vsv.skip(vsv.len() as int).len() == 0);
    proof {
        assert(out@ + render_values(vsv.skip(vsv.len() as int)) =~= out@);
    }
    out
}

/// Renders the member list of a union.
fn render_members_exec(members: &Vec<String>) -> (r: String)
    ensures
        r@ == render_members(crate::model::names_view(members@)),
{
    let ghost msv = crate::model::names_view(members@);
    let mut out = String::new();
    if members.len() == 0 {
        proof {
            assert(out@ =~= render_members(msv));
        }
        return out;
    }
    out.append(members[0].as_str());
    proof {
        assert(msv.skip(1).skip(0) =~= msv.skip(1));
        assert(out@ + render_members_rest(msv.skip(1)) =~= msv[0] + render_members_rest(
            msv.skip(1),
        ));
    }
    let mut ix: usize = 1;
    while ix < members.len()
        invariant
            1 <= ix <= members.len(),
            msv == crate::model::names_view(members@),
            msv.len() == members@.len(),
            msv.len() > 0,
            out@ + render_members_rest(msv.skip(ix as int)) == msv[0] + render_members_rest(
                msv.skip(1),
            ),
        decreases members.len() - ix,
    {
        proof {
            lemma_skip_one(msv, ix as int);
        }
        assert(msv.skip(ix as int)[0] == msv[ix as int] && msv[ix as int] == members@[ix as int]@);
        out.append(" | ");
        out.append(members[ix].as_str());
        proof {
            assert(out@ + render_members_rest(msv.skip(ix + 1 as int)) =~= msv[0]
                + render_members_rest(msv.skip(1)));
        }
        ix += 1;
    }
    assert(msv.skip(msv.len() as int).len() == 0);
    proof {
        assert(out@ + render_members_rest(msv.skip(msv.len() as int)) =~= out@);
        assert(render_members(msv) == msv[0] + render_members_rest(msv.skip(1)));
    }
    out
}

/// Renders one type declaration.
fn render_type_exec(t: &TypeDef) -> (r: String)
    ensures
        r@ == render_type(t@),
{
    let mut out = String::new();
    match t {
        TypeDef::Object(o) => {
            let desc = render_description_exec(&o.description);
            out.append(desc.as_str());
            if o.is_interface {
                out.append("interface ");
            } else {
                out.append("type ");
            }
            out.append(o.name.as_str());
            out.append(" {\n");
            let fields = render_fields_exec(&o.fields);
            out.append(fields.as_str());
            out.append("}\n\n");
            proof {
                assert(out@ =~= render_type(t@));
            }
        },
        TypeDef::Enum(e) => {
            let desc = render_description_exec(&e.description);
            out.append(desc.as_str());
            out.append("enum ");
            out.append(e.name.as_str());
            out.append(" {\n");
            let values = render_values_exec(&e.values);
            out.append(values.as_str());
            out.append("}\n\n");
            proof {
                assert(out@ =~= render_type(t@));
            }
        },
        TypeDef::Union(u) => {
            let desc = render_description_exec(&u.description);
            out.append(desc.as_str());
            out.append("union ");
            out.append(u.name.as_str());
            out.append(" = ");
            let members = render_members_exec(&u.members);
            out.append(members.as_str());
            out.append("\n\n");
            proof {
                assert(out@ =~= render_type(t@));
            }
        },
    }
    out
}

/// Renders a whole schema document as SDL text. The text is a function of
/// the document alone: equal documents render byte-identically.
pub fn render_sdl(doc: &SchemaDoc) -> (r: String)
    ensures
        r@ == render_spec(doc@),
{
    let ghost tsv = doc@.types;
    let mut out = String::new();
    proof {
        assert(tsv.skip(0) =~= tsv);
        assert(out@ + render_types(tsv) =~= render_types(tsv));
    }
    let mut ix: usize = 0;
    while ix < doc.types.len()
        invariant
            0 <= ix <= doc.types.len(),
            tsv == doc@.types,
            tsv.len() == doc.types@.len(),
            out@ + render_types(tsv.skip(ix as int)) == render_types(tsv),
        decreases doc.types.len() - ix,
    {
        proof {
            lemma_skip_one(tsv, ix as int);
        }
        assert(tsv.skip(ix as int)[0] == tsv[ix as int] && tsv[ix as int] == doc.types@[
            ix as int]@);
        let piece = render_type_exec(&doc.types[ix]);
        out.append(piece.as_str());
        proof {
            assert(out@ + render_types(tsv.skip(ix + 1 as int)) =~= render_types(tsv));
        }
        ix += 1;
    }
    assert(tsv.skip(tsv.len() as int).len() == 0);
    proof {
        assert(out@ + render_types(tsv.skip(tsv.len() as int)) =~= out@);
    }
    out
}

} // verus!
