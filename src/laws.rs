//! Properties of the whole expansion, stated over the spec functions that the
//! executable functions are proved against.
use vstd::prelude::*;
use crate::attrs::{
    attribute_spec, is_marker, path_ident, target_key, AttrArgs, AttrSpec, ErrorKind, NestedMeta,
    RawAttribute,
};
use crate::expand::{all_fragments, field_fragments, fragment_text, fragments_of};
use crate::structs::{
    StructSpec,
    attrs_spec, field_spec, fields_spec, lemma_attrs_err_extends, lemma_fields_err_extends,
    raw_fields, struct_spec, AsRefError, DeriveInput, FieldSpec, Location, RawData, RawField,
};

verus! {

/// The implementations of a list of fields are those of its two parts, one
/// after the other.
pub proof fn lemma_fragments_concat(name: Seq<char>, a: Seq<FieldSpec>, b: Seq<FieldSpec>)
    ensures
        fragments_of(name, a + b) == fragments_of(name, a) + fragments_of(name, b),
    decreases b.len(),
{
    if b.len() == 0 {
        assert(a + b =~= a);
        assert(fragments_of(name, a) + fragments_of(name, b) =~= fragments_of(name, a));
    } else {
        assert((a + b).drop_last() =~= a + b.drop_last());
        assert((a + b).last() == b.last());
        lemma_fragments_concat(name, a, b.drop_last());
        assert(fragments_of(name, a) + fragments_of(name, b) =~= fragments_of(name, a)
            + fragments_of(name, b.drop_last()) + field_fragments(name, b.last()));
    }
}

/// A field with N target markers contributes exactly N implementations, the
/// k-th of which borrows the field as the k-th target; they stand together in
/// the output, after those of the fields before it and before those of the
/// fields after it.
pub proof fn lemma_field_contributes(d: DeriveInput, s: StructSpec, i: int)
    requires
        struct_spec(d) == Ok::<StructSpec, AsRefError>(s),
        0 <= i < s.fields.len(),
    ensures
        all_fragments(s) == fragments_of(s.ident, s.fields.take(i)) + field_fragments(
            s.ident,
            s.fields[i],
        ) + fragments_of(s.ident, s.fields.skip(i + 1)),
        field_fragments(s.ident, s.fields[i]).len() == s.fields[i].attrs.len(),
        forall|k: int|
            0 <= k < s.fields[i].attrs.len() ==> (s.fields[i].attrs[k] matches AttrSpec::Target(t)
                && #[trigger] field_fragments(s.ident, s.fields[i])[k] == fragment_text(
                s.ident,
                s.fields[i].ident,
                t,
            )),
{
    let fs = s.fields;
    let name = s.ident;
    assert(fs =~= fs.take(i) + seq![fs[i]] + fs.skip(i + 1));
    lemma_fragments_concat(name, fs.take(i) + seq![fs[i]], fs.skip(i + 1));
    lemma_fragments_concat(name, fs.take(i), seq![fs[i]]);
    assert(seq![fs[i]].drop_last() =~= Seq::<FieldSpec>::empty());
    assert(seq![fs[i]].last() == fs[i]);
    assert(fragments_of(name, Seq::<FieldSpec>::empty()) == Seq::<Seq<char>>::empty());
    assert(Seq::<Seq<char>>::empty() + field_fragments(name, fs[i]) =~= field_fragments(
        name,
        fs[i],
    ));
    assert(fragments_of(name, seq![fs[i]]) =~= field_fragments(name, fs[i]));
}

/// A field that carries a single, valid `target = "T"` marker contributes
/// exactly one implementation: the one that borrows that field as a `&T`.
pub proof fn lemma_single_target(d: DeriveInput, s: StructSpec, i: int, t: Seq<char>)
    requires
        struct_spec(d) == Ok::<StructSpec, AsRefError>(s),
        0 <= i < s.fields.len(),
        s.fields[i].attrs == seq![AttrSpec::Target(t)],
    ensures
        field_fragments(s.ident, s.fields[i]) == seq![fragment_text(s.ident, s.fields[i].ident, t)],
        all_fragments(s) == fragments_of(s.ident, s.fields.take(i)) + seq![
            fragment_text(s.ident, s.fields[i].ident, t),
        ] + fragments_of(s.ident, s.fields.skip(i + 1)),
{
    lemma_field_contributes(d, s, i);
    assert(field_fragments(s.ident, s.fields[i]) =~= seq![
        fragment_text(s.ident, s.fields[i].ident, t),
    ]);
}

/// Attributes none of which is a marker parse into no marker at all.
proof fn lemma_no_markers(raws: Seq<RawAttribute>)
    requires
        forall|k: int| 0 <= k < raws.len() ==> !is_marker(#[trigger] raws[k]),
    ensures
        attrs_spec(raws) == Ok::<Seq<AttrSpec>, (int, ErrorKind)>(Seq::empty()),
    decreases raws.len(),
{
    if raws.len() > 0 {
        lemma_no_markers(raws.drop_last());
    }
}

/// Named fields without markers all build, each with no marker.
proof fn lemma_plain_fields(fs: Seq<RawField>)
    requires
        forall|k: int| 0 <= k < fs.len() ==> (#[trigger] fs[k]).ident is Some,
        forall|k: int, m: int|
            0 <= k < fs.len() && 0 <= m < fs[k].attrs@.len() ==> !is_marker(
                #[trigger] fs[k].attrs@[m],
            ),
    ensures
        fields_spec(fs) matches Ok(v) && v.len() == fs.len() && forall|k: int|
            0 <= k < v.len() ==> (#[trigger] v[k]).attrs.len() == 0,
    decreases fs.len(),
{
    if fs.len() > 0 {
        lemma_plain_fields(fs.drop_last());
        let last = fs.last();
        assert forall|m: int| 0 <= m < last.attrs@.len() implies !is_marker(
            #[trigger] last.attrs@[m],
        ) by {
            assert(last == fs[fs.len() - 1]);
        }
        lemma_no_markers(last.attrs@);
    }
}

/// Fields without markers contribute no implementation.
proof fn lemma_no_targets_no_fragments(name: Seq<char>, fs: Seq<FieldSpec>)
    requires
        forall|k: int| 0 <= k < fs.len() ==> (#[trigger] fs[k]).attrs.len() == 0,
    ensures
        fragments_of(name, fs) == Seq::<Seq<char>>::empty(),
    decreases fs.len(),
{
    if fs.len() > 0 {
        lemma_no_targets_no_fragments(name, fs.drop_last());
        assert(field_fragments(name, fs.last()) =~= Seq::<Seq<char>>::empty());
        assert(fragments_of(name, fs) =~= Seq::<Seq<char>>::empty());
    }
}

/// A struct with at least one field, all of them named, and no marker
/// anywhere expands successfully to no implementation at all.
pub proof fn lemma_no_markers_no_output(d: DeriveInput)
    requires
        d.data matches RawData::Struct(body) && raw_fields(body).len() > 0 && (forall|k: int|
            0 <= k < raw_fields(body).len() ==> (#[trigger] raw_fields(body)[k]).ident is Some)
            && (forall|k: int, m: int|
            0 <= k < raw_fields(body).len() && 0 <= m < raw_fields(body)[k].attrs@.len()
                ==> !is_marker(#[trigger] raw_fields(body)[k].attrs@[m])),
        forall|k: int| 0 <= k < d.attrs@.len() ==> !is_marker(#[trigger] d.attrs@[k]),
    ensures
        struct_spec(d) matches Ok(s) && all_fragments(s) == Seq::<Seq<char>>::empty(),
{
    if let RawData::Struct(body) = d.data {
        lemma_plain_fields(raw_fields(body));
        lemma_no_markers(d.attrs@);
        let s = struct_spec(d)->Ok_0;
        lemma_no_targets_no_fragments(s.ident, s.fields);
    }
}

/// A marker is refused when it has no parentheses, when it holds other than
/// exactly one item between them (two pairs, or none), when that item is not
/// a `key = value` pair, when the value is not a string literal, or when the
/// key is not `target`.
pub proof fn lemma_malformed_marker_refused(a: RawAttribute)
    requires
        is_marker(a),
        match a.args {
            AttrArgs::List(items) => items@.len() != 1 || match items@[0] {
                NestedMeta::NameValue(p, lit) => lit is Other || path_ident(p) != Some(target_key()),
                _ => true,
            },
            _ => true,
        },
    ensures
        attribute_spec(a) is Err,
{
}

/// The attributes fail to parse as soon as one marker among them does.
proof fn lemma_attrs_refused(raws: Seq<RawAttribute>, k: int)
    requires
        0 <= k < raws.len(),
        is_marker(raws[k]),
        attribute_spec(raws[k]) is Err,
    ensures
        attrs_spec(raws) is Err,
{
    assert(raws.take(k + 1).drop_last() =~= raws.take(k));
    assert(raws.take(k + 1).last() == raws[k]);
    lemma_attrs_err_extends(raws, k + 1);
}

/// The fields fail to build as soon as one of them does.
proof fn lemma_fields_refused(fs: Seq<RawField>, k: int)
    requires
        0 <= k < fs.len(),
        field_spec(fs[k], k) is Err,
    ensures
        fields_spec(fs) is Err,
{
    assert(fs.take(k + 1).drop_last() =~= fs.take(k));
    assert(fs.take(k + 1).last() == fs[k]);
    lemma_fields_err_extends(fs, k + 1);
}

/// A marker that fails to parse, on the struct or on any of its fields, makes
/// the whole expansion fail: no part of the output is produced.
pub proof fn lemma_bad_marker_fails(d: DeriveInput, field: Option<int>, k: int)
    requires
        match field {
            None => 0 <= k < d.attrs@.len() && is_marker(d.attrs@[k]) && attribute_spec(
                d.attrs@[k],
            ) is Err,
            Some(i) => d.data matches RawData::Struct(body) && 0 <= i < raw_fields(body).len()
                && 0 <= k < raw_fields(body)[i].attrs@.len() && is_marker(
                raw_fields(body)[i].attrs@[k],
            ) && attribute_spec(raw_fields(body)[i].attrs@[k]) is Err,
        },
    ensures
        struct_spec(d) is Err,
{
    if let RawData::Struct(body) = d.data {
        if raw_fields(body).len() > 0 {
            match field {
                None => {
                    lemma_attrs_refused(d.attrs@, k);
                },
                Some(i) => {
                    lemma_attrs_refused(raw_fields(body)[i].attrs@, k);
                    lemma_fields_refused(raw_fields(body), i);
                },
            }
        }
    }
}

/// A struct without any field is refused, whatever its attributes.
pub proof fn lemma_fieldless_fails(d: DeriveInput)
    requires
        d.data matches RawData::Struct(body) && raw_fields(body).len() == 0,
    ensures
        struct_spec(d) == Err::<StructSpec, AsRefError>(
            AsRefError { kind: ErrorKind::NoField, at: Location::Item },
        ),
{
}

/// A struct with a field that has no name is refused, whatever the
/// attributes on it or on the struct.
pub proof fn lemma_unnamed_field_fails(d: DeriveInput, i: int)
    requires
        d.data matches RawData::Struct(body) && 0 <= i < raw_fields(body).len() && raw_fields(
            body,
        )[i].ident is None,
    ensures
        struct_spec(d) is Err,
{
    if let RawData::Struct(body) = d.data {
        lemma_fields_refused(raw_fields(body), i);
    }
}


/// The index that an attribute at index `j` has once another attribute has
/// been inserted at index `k`.
pub open spec fn shift(j: usize, k: int) -> usize {
    if j < k {
        j
    } else {
        (j + 1) as usize
    }
}

/// An error once an attribute has been inserted at index `k` among those of
/// the struct (`field` is `None`) or of the field at index `field`: an error
/// that names an attribute there names it by its new index.
pub open spec fn shifted(e: AsRefError, field: Option<usize>, k: int) -> AsRefError {
    match e.at {
        Location::ItemAttr(j) => if field is None {
            AsRefError { kind: e.kind, at: Location::ItemAttr(shift(j, k)) }
        } else {
            e
        },
        Location::FieldAttr(i, j) => if field == Some(i) {
            AsRefError { kind: e.kind, at: Location::FieldAttr(i, shift(j, k)) }
        } else {
            e
        },
        _ => e,
    }
}

/// Inserting an attribute that is not a marker into a list of attributes
/// changes neither the markers read from it nor the error found in it, but
/// for the index of the failing attribute, which still names the same one.
pub proof fn lemma_unrelated_attribute_ignored(raws: Seq<RawAttribute>, k: int, a: RawAttribute)
    requires
        0 <= k <= raws.len(),
        !is_marker(a),
    ensures
        attrs_spec(raws.insert(k, a)) == (match attrs_spec(raws) {
            Ok(v) => Ok(v),
            Err((j, e)) => Err::<Seq<AttrSpec>, (int, ErrorKind)>((if j < k { j } else { j + 1 }, e)),
        }),
        attrs_spec(raws) matches Err((j, e)) ==> 0 <= j < raws.len(),
    decreases raws.len(),
{
    let raws2 = raws.insert(k, a);
    if k == raws.len() {
        assert(raws2.drop_last() =~= raws);
        assert(raws2.last() == a);
        if raws.len() > 0 {
            lemma_unrelated_attribute_ignored(raws.drop_last(), 0, a);
        }
    } else {
        assert(raws2.drop_last() =~= raws.drop_last().insert(k, a));
        assert(raws2.last() == raws.last());
        lemma_unrelated_attribute_ignored(raws.drop_last(), k, a);
    }
}

/// Inserting an attribute that is not a marker among those of a field
/// changes neither the field that is built nor the error, but for the index
/// of a failing attribute of the field.
pub proof fn lemma_unrelated_field_attribute_ignored(
    f: RawField,
    f2: RawField,
    i: usize,
    k: int,
    a: RawAttribute,
)
    requires
        0 <= k <= f.attrs@.len(),
        !is_marker(a),
        f2.ident == f.ident,
        f2.attrs@ == f.attrs@.insert(k, a),
        f2.attrs@.len() <= usize::MAX,
    ensures
        field_spec(f2, i as int) == (match field_spec(f, i as int) {
            Ok(v) => Ok(v),
            Err(e) => Err::<FieldSpec, AsRefError>(shifted(e, Some(i), k)),
        }),
{
    lemma_unrelated_attribute_ignored(f.attrs@, k, a);
}

/// The error of a list of fields names a field or an attribute of one.
proof fn lemma_fields_error_site(fs: Seq<RawField>)
    ensures
        fields_spec(fs) matches Err(e) ==> (e.at is Field || e.at is FieldAttr),
        fs.len() <= usize::MAX ==> (fields_spec(fs) matches Err(e) ==> match e.at {
            Location::Field(m) => m < fs.len(),
            Location::FieldAttr(m, _) => m < fs.len(),
            _ => true,
        }),
    decreases fs.len(),
{
    if fs.len() > 0 {
        lemma_fields_error_site(fs.drop_last());
    }
}

/// Inserting an attribute that is not a marker among those of a struct
/// changes neither the model nor the error, but for the index of a failing
/// attribute of the struct.
pub proof fn lemma_unrelated_item_attribute_ignored(
    d: DeriveInput,
    d2: DeriveInput,
    k: int,
    a: RawAttribute,
)
    requires
        0 <= k <= d.attrs@.len(),
        !is_marker(a),
        d2.ident == d.ident,
        d2.data == d.data,
        d2.attrs@ == d.attrs@.insert(k, a),
        d2.attrs@.len() <= usize::MAX,
    ensures
        struct_spec(d2) == (match struct_spec(d) {
            Ok(v) => Ok(v),
            Err(e) => Err::<StructSpec, AsRefError>(shifted(e, None, k)),
        }),
{
    lemma_unrelated_attribute_ignored(d.attrs@, k, a);
    if let RawData::Struct(body) = d.data {
        lemma_fields_error_site(raw_fields(body));
        if raw_fields(body).len() > 0 && fields_spec(raw_fields(body)) is Ok {
            if let Err((j, e)) = attrs_spec(d.attrs@) {
                assert(shift(j as usize, k) == (if j < k { j } else { j + 1 }) as usize);
            }
        }
    }
}


/// Inserting an attribute that is not a marker among those of the field at
/// index `i` changes neither the fields that are built nor the error, but for
/// the index of a failing attribute of that field.
proof fn lemma_unrelated_attribute_in_fields(
    fs: Seq<RawField>,
    i: int,
    f2: RawField,
    k: int,
    a: RawAttribute,
)
    requires
        0 <= i < fs.len() <= usize::MAX,
        0 <= k <= fs[i].attrs@.len(),
        !is_marker(a),
        f2.ident == fs[i].ident,
        f2.attrs@ == fs[i].attrs@.insert(k, a),
        f2.attrs@.len() <= usize::MAX,
    ensures
        fields_spec(fs.update(i, f2)) == (match fields_spec(fs) {
            Ok(v) => Ok(v),
            Err(e) => Err::<Seq<FieldSpec>, AsRefError>(shifted(e, Some(i as usize), k)),
        }),
    decreases fs.len(),
{
    let fs2 = fs.update(i, f2);
    let n = fs.len() - 1;
    lemma_fields_error_site(fs.drop_last());
    lemma_fields_error_site(fs);
    if i == n {
        assert(fs2.drop_last() =~= fs.drop_last());
        assert(fs2.last() == f2);
        lemma_unrelated_field_attribute_ignored(fs[i], f2, i as usize, k, a);
    } else {
        assert(fs2.drop_last() =~= fs.drop_last().update(i, f2));
        assert(fs2.last() == fs.last());
        lemma_unrelated_attribute_in_fields(fs.drop_last(), i, f2, k, a);
    }
}

/// Inserting an attribute that is not a marker among those of a field of a
/// struct changes neither the model nor the error, but for the index of a
/// failing attribute of that field.
pub proof fn lemma_unrelated_attribute_in_struct(
    d: DeriveInput,
    d2: DeriveInput,
    i: int,
    f2: RawField,
    k: int,
    a: RawAttribute,
)
    requires
        d.data matches RawData::Struct(body) && d2.data matches RawData::Struct(body2) && raw_fields(
            body2,
        ) == raw_fields(body).update(i, f2) && 0 <= i < raw_fields(body).len() <= usize::MAX && 0
            <= k <= raw_fields(body)[i].attrs@.len() && f2.ident == raw_fields(body)[i].ident
            && f2.attrs@ == raw_fields(body)[i].attrs@.insert(k, a),
        f2.attrs@.len() <= usize::MAX,
        !is_marker(a),
        d2.ident == d.ident,
        d2.attrs == d.attrs,
    ensures
        struct_spec(d2) == (match struct_spec(d) {
            Ok(v) => Ok(v),
            Err(e) => Err::<StructSpec, AsRefError>(shifted(e, Some(i as usize), k)),
        }),
{
    if let RawData::Struct(body) = d.data {
        if let RawData::Struct(body2) = d2.data {
            lemma_unrelated_attribute_in_fields(raw_fields(body), i, f2, k, a);
        }
    }
}


/// Every marker among `raws` parses.
pub open spec fn markers_parse(raws: Seq<RawAttribute>) -> bool {
    forall|m: int| 0 <= m < raws.len() && is_marker(#[trigger] raws[m]) ==> attribute_spec(raws[m]) is Ok
}

/// Attributes whose markers all parse are read without error.
proof fn lemma_attrs_ok(raws: Seq<RawAttribute>)
    requires
        markers_parse(raws),
    ensures
        attrs_spec(raws) is Ok,
    decreases raws.len(),
{
    if raws.len() > 0 {
        assert(markers_parse(raws.drop_last())) by {
            assert forall|m: int| 0 <= m < raws.drop_last().len() && is_marker(
                #[trigger] raws.drop_last()[m],
            ) implies attribute_spec(raws.drop_last()[m]) is Ok by {
                assert(raws.drop_last()[m] == raws[m]);
            }
        }
        lemma_attrs_ok(raws.drop_last());
        assert(raws.last() == raws[raws.len() - 1]);
    }
}

/// Attributes with one marker, at index `m`, read as that marker alone.
proof fn lemma_attrs_single(raws: Seq<RawAttribute>, m: int, x: AttrSpec)
    requires
        0 <= m < raws.len(),
        attribute_spec(raws[m]) == Ok::<AttrSpec, ErrorKind>(x),
        is_marker(raws[m]),
        forall|p: int| 0 <= p < raws.len() && p != m ==> !is_marker(#[trigger] raws[p]),
    ensures
        attrs_spec(raws) == Ok::<Seq<AttrSpec>, (int, ErrorKind)>(seq![x]),
    decreases raws.len(),
{
    let prefix = raws.drop_last();
    assert(raws.last() == raws[raws.len() - 1]);
    if m == raws.len() - 1 {
        assert forall|p: int| 0 <= p < prefix.len() implies !is_marker(#[trigger] prefix[p]) by {
            assert(prefix[p] == raws[p]);
        }
        lemma_no_markers(prefix);
        assert(Seq::<AttrSpec>::empty().push(x) =~= seq![x]);
    } else {
        assert forall|p: int| 0 <= p < prefix.len() && p != m implies !is_marker(
            #[trigger] prefix[p],
        ) by {
            assert(prefix[p] == raws[p]);
        }
        assert(prefix[m] == raws[m]);
        lemma_attrs_single(prefix, m, x);
    }
}

/// Named fields whose markers all parse build, each as `field_spec` says.
proof fn lemma_fields_ok(fs: Seq<RawField>)
    requires
        forall|m: int|
            0 <= m < fs.len() ==> (#[trigger] fs[m]).ident is Some && attrs_spec(fs[m].attrs@) is Ok,
    ensures
        fields_spec(fs) matches Ok(v) && v.len() == fs.len() && forall|m: int|
            0 <= m < fs.len() ==> #[trigger] v[m] == field_spec(fs[m], m)->Ok_0,
    decreases fs.len(),
{
    if fs.len() > 0 {
        let prefix = fs.drop_last();
        assert forall|m: int| 0 <= m < prefix.len() implies (#[trigger] prefix[m]).ident is Some
            && attrs_spec(prefix[m].attrs@) is Ok by {
            assert(prefix[m] == fs[m]);
        }
        lemma_fields_ok(prefix);
        assert(fs.last() == fs[fs.len() - 1]);
        let v = fields_spec(fs)->Ok_0;
        assert forall|m: int| 0 <= m < fs.len() implies #[trigger] v[m] == field_spec(fs[m], m)->Ok_0 by {
            if m < prefix.len() {
                assert(prefix[m] == fs[m]);
            }
        }
    }
}

/// A struct whose fields are all named and whose markers all parse, where the
/// field at index `i`, named `name`, carries one marker, `target = "T"`,
/// expands successfully; that field contributes exactly one implementation,
/// the one that borrows it as a `&T`.
pub proof fn lemma_single_target_from_input(
    d: DeriveInput,
    i: int,
    m: int,
    name: String,
    t: Seq<char>,
)
    requires
        d.data matches RawData::Struct(body) && 0 <= i < raw_fields(body).len() && (forall|p: int|
            0 <= p < raw_fields(body).len() ==> (#[trigger] raw_fields(body)[p]).ident is Some
                && markers_parse(raw_fields(body)[p].attrs@)) && raw_fields(body)[i].ident
            == Some(name) && 0 <= m < raw_fields(body)[i].attrs@.len() && attribute_spec(
            raw_fields(body)[i].attrs@[m],
        ) == Ok::<AttrSpec, ErrorKind>(AttrSpec::Target(t)) && (forall|p: int|
            0 <= p < raw_fields(body)[i].attrs@.len() && p != m ==> !is_marker(
                #[trigger] raw_fields(body)[i].attrs@[p],
            )),
        markers_parse(d.attrs@),
    ensures
        struct_spec(d) matches Ok(s) && s.ident == d.ident@ && i < s.fields.len()
            && s.fields[i].ident == name@ && all_fragments(s) == fragments_of(
            s.ident,
            s.fields.take(i),
        ) + seq![fragment_text(d.ident@, name@, t)] + fragments_of(s.ident, s.fields.skip(i + 1)),
{
    if let RawData::Struct(body) = d.data {
        let fs = raw_fields(body);
        assert forall|p: int| 0 <= p < fs.len() implies (#[trigger] fs[p]).ident is Some
            && attrs_spec(fs[p].attrs@) is Ok by {
            lemma_attrs_ok(fs[p].attrs@);
        }
        lemma_fields_ok(fs);
        lemma_attrs_ok(d.attrs@);
        assert(is_marker(fs[i].attrs@[m]));
        lemma_attrs_single(fs[i].attrs@, m, AttrSpec::Target(t));
        let s = struct_spec(d)->Ok_0;
        assert(s.fields[i] == field_spec(fs[i], i)->Ok_0);
        lemma_single_target(d, s, i, t);
    }
}

} // verus!
