//! The structural model: a struct, its fields, and the markers on each.
use vstd::prelude::*;
use crate::attrs::{
    attribute_spec, is_ident, is_marker, is_marker_attribute, AttrSpec, Attribute, ErrorKind,
    RawAttribute,
};

verus! {

/// A field as written in the source.
pub struct RawField {
    pub ident: Option<String>,
    pub attrs: Vec<RawAttribute>,
}

/// The fields of a struct as written in the source.
pub enum RawFields {
    /// `struct S { a: A, ... }`
    Named(Vec<RawField>),
    /// `struct S(A, ...);`: the fields are read as they come, so a field that
    /// carries a name anyway is accepted under it.
    Unnamed(Vec<RawField>),
    /// `struct S;`
    Unit,
}

/// The body of the item that the derive is applied to.
pub enum RawData {
    Struct(RawFields),
    Enum,
    Union,
}

/// The item that the derive is applied to, as written in the source.
pub struct DeriveInput {
    pub ident: String,
    pub attrs: Vec<RawAttribute>,
    pub data: RawData,
}

/// Where an error was found.
#[derive(Clone, Copy, Debug, PartialEq, Eq, Structural)]
pub enum Location {
    /// The item as a whole.
    Item,
    /// The field at this index.
    Field(usize),
    /// The attribute at this index among those of the item.
    ItemAttr(usize),
    /// The attribute at the second index among those of the field at the first.
    FieldAttr(usize, usize),
}

/// An error together with the place it refers to.
#[derive(Clone, Copy, Debug, PartialEq, Eq, Structural)]
pub struct AsRefError {
    pub kind: ErrorKind,
    pub at: Location,
}

/// A named field with its markers.
pub struct Field {
    pub ident: String,
    pub attrs: Vec<Attribute>,
}

/// A struct with its markers and its fields.
pub struct Struct {
    pub ident: String,
    pub attrs: Vec<Attribute>,
    pub fields: Vec<Field>,
}

/// The mathematical value of a [`Field`].
pub struct FieldSpec {
    pub ident: Seq<char>,
    pub attrs: Seq<AttrSpec>,
}

/// The mathematical value of a [`Struct`].
pub struct StructSpec {
    pub ident: Seq<char>,
    pub attrs: Seq<AttrSpec>,
    pub fields: Seq<FieldSpec>,
}

impl View for Field {
    type V = FieldSpec;

    open spec fn view(&self) -> FieldSpec {
        FieldSpec { ident: self.ident@, attrs: self.attrs@.map_values(|a: Attribute| a@) }
    }
}

impl View for Struct {
    type V = StructSpec;

    open spec fn view(&self) -> StructSpec {
        StructSpec {
            ident: self.ident@,
            attrs: self.attrs@.map_values(|a: Attribute| a@),
            fields: self.fields@.map_values(|f: Field| f@),
        }
    }
}

/// Every marker names a target that is an identifier.
pub open spec fn attrs_valid(attrs: Seq<AttrSpec>) -> bool {
    forall|k: int|
        0 <= k < attrs.len() ==> match #[trigger] attrs[k] {
            AttrSpec::Target(t) => is_ident(t),
        }
}

/// The invariant of a structural model: at least one field, and every
/// target, on the struct or on a field, an identifier.
pub open spec fn well_formed(s: StructSpec) -> bool {
    &&& s.fields.len() > 0
    &&& attrs_valid(s.attrs)
    &&& forall|i: int| 0 <= i < s.fields.len() ==> attrs_valid(#[trigger] s.fields[i].attrs)
}

/// The markers among `raws`, parsed in order, or the index and the error of
/// the first one that fails to parse. Other attributes are skipped.
pub open spec fn attrs_spec(raws: Seq<RawAttribute>) -> Result<Seq<AttrSpec>, (int, ErrorKind)>
    decreases raws.len(),
{
    if raws.len() == 0 {
        Ok(Seq::empty())
    } else {
        match attrs_spec(raws.drop_last()) {
            Err(e) => Err(e),
            Ok(done) => {
                if !is_marker(raws.last()) {
                    Ok(done)
                } else {
                    match attribute_spec(raws.last()) {
                        Ok(a) => Ok(done.push(a)),
                        Err(k) => Err((raws.len() - 1, k)),
                    }
                }
            },
        }
    }
}

/// The field at index `i` of a struct, or why it is refused: its markers are
/// read first, then its name.
pub open spec fn field_spec(f: RawField, i: int) -> Result<FieldSpec, AsRefError> {
    match attrs_spec(f.attrs@) {
        Err((j, k)) => Err(AsRefError { kind: k, at: Location::FieldAttr(i as usize, j as usize) }),
        Ok(attrs) => match f.ident {
            Some(name) => Ok(FieldSpec { ident: name@, attrs }),
            None => Err(AsRefError { kind: ErrorKind::UnnamedField, at: Location::Field(i as usize) }),
        },
    }
}

/// The fields, or the error of the first one that is refused.
pub open spec fn fields_spec(fs: Seq<RawField>) -> Result<Seq<FieldSpec>, AsRefError>
    decreases fs.len(),
{
    if fs.len() == 0 {
        Ok(Seq::empty())
    } else {
        match fields_spec(fs.drop_last()) {
            Err(e) => Err(e),
            Ok(done) => match field_spec(fs.last(), fs.len() - 1) {
                Ok(f) => Ok(done.push(f)),
                Err(e) => Err(e),
            },
        }
    }
}

/// The fields that a struct body declares, in order.
pub open spec fn raw_fields(fields: RawFields) -> Seq<RawField> {
    match fields {
        RawFields::Named(v) => v@,
        RawFields::Unnamed(v) => v@,
        RawFields::Unit => Seq::empty(),
    }
}

/// The model of a derive input, or the first error: the item must be a struct
/// with at least one field; then its fields are read, then its own markers.
pub open spec fn struct_spec(d: DeriveInput) -> Result<StructSpec, AsRefError> {
    match d.data {
        RawData::Struct(fields) => {
            if raw_fields(fields).len() == 0 {
                Err(AsRefError { kind: ErrorKind::NoField, at: Location::Item })
            } else {
                match fields_spec(raw_fields(fields)) {
                    Err(e) => Err(e),
                    Ok(fs) => match attrs_spec(d.attrs@) {
                        Err((j, k)) => Err(AsRefError { kind: k, at: Location::ItemAttr(j as usize) }),
                        Ok(attrs) => Ok(StructSpec { ident: d.ident@, attrs, fields: fs }),
                    },
                }
            }
        },
        _ => Err(AsRefError { kind: ErrorKind::NotStruct, at: Location::Item }),
    }
}

/// Once a prefix of the attributes fails, the whole list fails with the same error.
pub(crate) proof fn lemma_attrs_err_extends(raws: Seq<RawAttribute>, n: int)
    requires
        0 <= n <= raws.len(),
        attrs_spec(raws.take(n)) is Err,
    ensures
        attrs_spec(raws) == attrs_spec(raws.take(n)),
    decreases raws.len() - n,
{
    if n == raws.len() {
        assert(raws.take(n) == raws);
    } else {
        assert(raws.take(n + 1).drop_last() == raws.take(n));
        lemma_attrs_err_extends(raws, n + 1);
    }
}

/// Parsed markers name identifiers only.
proof fn lemma_attrs_valid(raws: Seq<RawAttribute>)
    requires
        attrs_spec(raws) is Ok,
    ensures
        attrs_valid(attrs_spec(raws)->Ok_0),
    decreases raws.len(),
{
    if raws.len() > 0 {
        lemma_attrs_valid(raws.drop_last());
        let done = attrs_spec(raws.drop_last())->Ok_0;
        if is_marker(raws.last()) {
            let a = attribute_spec(raws.last())->Ok_0;
            let all = done.push(a);
            assert forall|k: int| 0 <= k < all.len() implies match #[trigger] all[k] {
                AttrSpec::Target(t) => is_ident(t),
            } by {
                if k < done.len() {
                    assert(all[k] == done[k]);
                } else {
                }
            }
        }
    }
}

/// Built fields carry markers that name identifiers only.
proof fn lemma_fields_valid(fs: Seq<RawField>)
    requires
        fields_spec(fs) is Ok,
    ensures
        forall|i: int|
            0 <= i < fields_spec(fs)->Ok_0.len() ==> attrs_valid(
                #[trigger] fields_spec(fs)->Ok_0[i].attrs,
            ),
        fields_spec(fs)->Ok_0.len() == fs.len(),
    decreases fs.len(),
{
    if fs.len() > 0 {
        lemma_fields_valid(fs.drop_last());
        lemma_attrs_valid(fs.last().attrs@);
        let done = fields_spec(fs.drop_last())->Ok_0;
        let all = fields_spec(fs)->Ok_0;
        assert forall|i: int| 0 <= i < all.len() implies attrs_valid(#[trigger] all[i].attrs) by {
            if i < done.len() {
                assert(all[i] == done[i]);
            }
        }
    }
}

/// A model that builds satisfies the invariant.
pub proof fn lemma_model_well_formed(d: DeriveInput)
    requires
        struct_spec(d) is Ok,
    ensures
        well_formed(struct_spec(d)->Ok_0),
{
    if let RawData::Struct(body) = d.data {
        lemma_fields_valid(raw_fields(body));
        lemma_attrs_valid(d.attrs@);
    }
}

/// Parses the markers among `raws`, skipping every other attribute.
fn parse_attributes(raws: &Vec<RawAttribute>) -> (r: Result<Vec<Attribute>, (usize, ErrorKind)>)
    ensures
        attrs_spec(raws@) == (match r {
            Ok(v) => Ok(v@.map_values(|a: Attribute| a@)),
            Err((j, k)) => Err::<Seq<AttrSpec>, (int, ErrorKind)>((j as int, k)),
        }),
{
    let mut out: Vec<Attribute> = Vec::new();
    let mut i: usize = 0;
    assert(raws@.take(0) =~= Seq::<RawAttribute>::empty());
    assert(out@.map_values(|a: Attribute| a@) =~= Seq::<AttrSpec>::empty());
    while i < raws.len()
        invariant
            i <= raws@.len(),
            attrs_spec(raws@.take(i as int)) == Ok::<Seq<AttrSpec>, (int, ErrorKind)>(
                out@.map_values(|a: Attribute| a@),
            ),
        decreases raws@.len() - i,
    {
        assert(raws@.take(i + 1).drop_last() == raws@.take(i as int));
        if is_marker_attribute(&raws[i]) {
            match Attribute::try_from(&raws[i]) {
                Ok(a) => {
                    let ghost before = out@;
                    out.push(a);
                    assert(out@.map_values(|a: Attribute| a@) =~= before.map_values(
                        |a: Attribute| a@,
                    ).push(a@));
                },
                Err(k) => {
                    proof {
                        lemma_attrs_err_extends(raws@, i + 1);
                    }
                    return Err((i, k));
                },
            }
        }
        i += 1;
    }
    assert(raws@.take(i as int) == raws@);
    Ok(out)
}


/// Once a prefix of the fields fails, the whole list fails with the same error.
pub(crate) proof fn lemma_fields_err_extends(fs: Seq<RawField>, n: int)
    requires
        0 <= n <= fs.len(),
        fields_spec(fs.take(n)) is Err,
    ensures
        fields_spec(fs) == fields_spec(fs.take(n)),
    decreases fs.len() - n,
{
    if n == fs.len() {
        assert(fs.take(n) == fs);
    } else {
        assert(fs.take(n + 1).drop_last() == fs.take(n));
        lemma_fields_err_extends(fs, n + 1);
    }
}

impl Field {
    /// Builds the field at index `index` of a struct: its markers are parsed
    /// first, then its name is required.
    pub fn try_from(origin: &RawField, index: usize) -> (r: Result<Field, AsRefError>)
        ensures
            field_spec(*origin, index as int) == (match r {
                Ok(f) => Ok(f@),
                Err(e) => Err::<FieldSpec, AsRefError>(e),
            }),
    {
        let attrs = match parse_attributes(&origin.attrs) {
            Ok(attrs) => attrs,
            Err((j, k)) => return Err(AsRefError { kind: k, at: Location::FieldAttr(index, j) }),
        };
        match &origin.ident {
            Some(ident) => Ok(Field { ident: ident.clone(), attrs }),
            None => Err(AsRefError { kind: ErrorKind::UnnamedField, at: Location::Field(index) }),
        }
    }
}

/// Builds the fields in order, stopping at the first that is refused.
fn build_fields(raws: &Vec<RawField>) -> (r: Result<Vec<Field>, AsRefError>)
    ensures
        fields_spec(raws@) == (match r {
            Ok(v) => Ok(v@.map_values(|f: Field| f@)),
            Err(e) => Err::<Seq<FieldSpec>, AsRefError>(e),
        }),
{
    let mut out: Vec<Field> = Vec::new();
    let mut i: usize = 0;
    assert(raws@.take(0) =~= Seq::<RawField>::empty());
    assert(out@.map_values(|f: Field| f@) =~= Seq::<FieldSpec>::empty());
    while i < raws.len()
        invariant
            i <= raws@.len(),
            fields_spec(raws@.take(i as int)) == Ok::<Seq<FieldSpec>, AsRefError>(
                out@.map_values(|f: Field| f@),
            ),
        decreases raws@.len() - i,
    {
        assert(raws@.take(i + 1).drop_last() == raws@.take(i as int));
        match Field::try_from(&raws[i], i) {
            Ok(f) => {
                let ghost before = out@;
                out.push(f);
                assert(out@.map_values(|f: Field| f@) =~= before.map_values(|f: Field| f@).push(
                    f@,
                ));
            },
            Err(e) => {
                proof {
                    lemma_fields_err_extends(raws@, i + 1);
                }
                return Err(e);
            },
        }
        i += 1;
    }
    assert(raws@.take(i as int) == raws@);
    Ok(out)
}

impl Struct {
    /// Builds the model of a derive input: the item must be a struct with at
    /// least one field, every field named; the markers on the fields and on
    /// the struct must parse. Attributes other than markers are skipped.
    pub fn try_from(origin: &DeriveInput) -> (r: Result<Struct, AsRefError>)
        ensures
            struct_spec(*origin) == (match r {
                Ok(s) => Ok(s@),
                Err(e) => Err::<StructSpec, AsRefError>(e),
            }),
            r matches Ok(s) ==> well_formed(s@),
    {
        let data = match &origin.data {
            RawData::Struct(data) => data,
            _ => return Err(AsRefError { kind: ErrorKind::NotStruct, at: Location::Item }),
        };
        let fields = match data {
            RawFields::Named(fields) => fields,
            RawFields::Unnamed(fields) => fields,
            RawFields::Unit => {
                return Err(AsRefError { kind: ErrorKind::NoField, at: Location::Item });
            },
        };
        if fields.len() == 0 {
            return Err(AsRefError { kind: ErrorKind::NoField, at: Location::Item });
        }
        let fields = build_fields(fields)?;
        let attrs = match parse_attributes(&origin.attrs) {
            Ok(attrs) => attrs,
            Err((j, k)) => return Err(AsRefError { kind: k, at: Location::ItemAttr(j) }),
        };
        proof {
            lemma_model_well_formed(*origin);
        }
        Ok(Struct { ident: origin.ident.clone(), attrs, fields })
    }
}

} // verus!
