//! Synthesis of the `AsRef` implementations from the structural model.
use vstd::prelude::*;
use crate::attrs::AttrSpec;
use crate::structs::{
    struct_spec, AsRefError, DeriveInput, Field, FieldSpec, Struct, StructSpec,
};

verus! {

/// The source text of the implementation that borrows field `field` of
/// struct `name` as a `&target`.
pub open spec fn fragment_text(name: Seq<char>, field: Seq<char>, target: Seq<char>) -> Seq<char> {
    "impl ::core::convert::AsRef<"@ + target + "> for "@ + name + " { fn as_ref(&self) -> &"@
        + target + " { &self."@ + field + " } }"@
}

/// The implementations that one field contributes: one per target marker, in
/// the order of the markers.
pub open spec fn field_fragments(name: Seq<char>, f: FieldSpec) -> Seq<Seq<char>> {
    f.attrs.map_values(
        |a: AttrSpec|
            match a {
                AttrSpec::Target(t) => fragment_text(name, f.ident, t),
            },
    )
}

/// The implementations that the fields contribute, field after field.
pub open spec fn fragments_of(name: Seq<char>, fs: Seq<FieldSpec>) -> Seq<Seq<char>>
    decreases fs.len(),
{
    if fs.len() == 0 {
        Seq::empty()
    } else {
        fragments_of(name, fs.drop_last()) + field_fragments(name, fs.last())
    }
}

/// The implementations generated for a struct. Markers on the struct itself
/// generate nothing.
pub open spec fn all_fragments(s: StructSpec) -> Seq<Seq<char>> {
    fragments_of(s.ident, s.fields)
}

/// The views of a list of generated texts.
pub open spec fn texts(v: Seq<String>) -> Seq<Seq<char>> {
    v.map_values(|s: String| s@)
}

/// Renders the implementation that borrows `field` of `input` as a `&target`.
pub fn produce_impl_asref(input: &Struct, field: &Field, target: &String) -> (r: String)
    ensures
        r@ == fragment_text(input.ident@, field.ident@, target@),
{
    let mut out = String::from_str("impl ::core::convert::AsRef<");
    out.append(target.as_str());
    out.append("> for ");
    out.append(input.ident.as_str());
    out.append(" { fn as_ref(&self) -> &");
    out.append(target.as_str());
    out.append(" { &self.");
    out.append(field.ident.as_str());
    out.append(" } }");
    out
}

/// Renders every implementation of `input`: for each field in order, one per
/// target marker on it, in the order of the markers.
pub fn produce_all_impl_asref(input: &Struct) -> (r: Vec<String>)
    ensures
        texts(r@) == all_fragments(input@),
{
    let ghost name = input.ident@;
    let ghost fs = input@.fields;
    let mut out: Vec<String> = Vec::new();
    let mut i: usize = 0;
    assert(fs.take(0) =~= Seq::<FieldSpec>::empty());
    assert(texts(out@) =~= Seq::<Seq<char>>::empty());
    while i < input.fields.len()
        invariant
            i <= input.fields@.len(),
            fs == input@.fields,
            name == input.ident@,
            texts(out@) == fragments_of(name, fs.take(i as int)),
        decreases input.fields@.len() - i,
    {
        let field = &input.fields[i];
        let ghost start = texts(out@);
        let ghost f = field@;
        let mut j: usize = 0;
        assert(field_fragments(name, f).take(0) =~= Seq::<Seq<char>>::empty());
        assert(start + field_fragments(name, f).take(0) =~= start);
        while j < field.attrs.len()
            invariant
                j <= field.attrs@.len(),
                f == field@,
                name == input.ident@,
                texts(out@) == start + field_fragments(name, f).take(j as int),
            decreases field.attrs@.len() - j,
        {
            if let Some(target) = field.attrs[j].to_target() {
                let text = produce_impl_asref(input, field, &target.target);
                let ghost before = out@;
                out.push(text);
                assert(texts(out@) =~= texts(before).push(text@));
                assert(field_fragments(name, f).take(j + 1) =~= field_fragments(name, f).take(
                    j as int,
                ).push(text@));
            }
            j += 1;
        }
        assert(field_fragments(name, f).take(j as int) =~= field_fragments(name, f));
        assert(fs.take(i + 1).drop_last() =~= fs.take(i as int));
        assert(fs.take(i + 1).last() == f);
        i += 1;
    }
    assert(fs.take(i as int) =~= fs);
    out
}

/// Expands the derive on `input`: the rendered implementations, or the first
/// error found while building the structural model.
pub fn derive(input: &DeriveInput) -> (r: Result<Vec<String>, AsRefError>)
    ensures
        match struct_spec(*input) {
            Ok(s) => r matches Ok(v) && texts(v@) == all_fragments(s),
            Err(e) => r == Err::<Vec<String>, AsRefError>(e),
        },
{
    let model = Struct::try_from(input)?;
    Ok(produce_all_impl_asref(&model))
}

} // verus!
