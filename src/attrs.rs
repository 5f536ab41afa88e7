//! Parsing of `#[as_ref(key = "value")]` marker attributes.
//!
//! An attribute arrives as a [`RawAttribute`]: its path and its arguments as
//! plain values. A marker is parsed into an [`Attribute`]; any other attribute
//! is not this library's business and is left to its callers to skip.
use vstd::prelude::*;

verus! {

/// The character has the Unicode property XID_Start.
pub uninterp spec fn xid_start(c: char) -> bool;

/// The character has the Unicode property XID_Continue.
pub uninterp spec fn xid_continue(c: char) -> bool;

/// Relies on `unicode_ident::is_xid_start`: a lookup of the character in
/// Unicode's XID_Start table.
pub assume_specification[ unicode_ident::is_xid_start ](ch: char) -> (r: bool)
    ensures
        r == xid_start(ch),
;

/// Relies on `unicode_ident::is_xid_continue`: a lookup of the character in
/// Unicode's XID_Continue table.
pub assume_specification[ unicode_ident::is_xid_continue ](ch: char) -> (r: bool)
    ensures
        r == xid_continue(ch),
;

/// `s` spells an identifier: a first character that is `_` or XID_Start,
/// followed by XID_Continue characters only.
pub open spec fn is_ident(s: Seq<char>) -> bool {
    &&& s.len() > 0
    &&& (s[0] == '_' || xid_start(s[0]))
    &&& forall|k: int| 1 <= k < s.len() ==> xid_continue(#[trigger] s[k])
}

/// Tells whether `s` spells an identifier.
pub fn is_ident_str(s: &str) -> (r: bool)
    ensures
        r == is_ident(s@),
{
    let n = s.unicode_len();
    if n == 0 {
        return false;
    }
    let first = s.get_char(0);
    if !(first == '_' || unicode_ident::is_xid_start(first)) {
        return false;
    }
    let mut i: usize = 1;
    while i < n
        invariant
            n == s@.len(),
            1 <= i <= n,
            forall|k: int| 1 <= k < i ==> xid_continue(#[trigger] s@[k]),
        decreases n - i,
    {
        if !unicode_ident::is_xid_continue(s.get_char(i)) {
            return false;
        }
        i += 1;
    }
    true
}

/// One segment of an attribute path.
pub struct PathSegment {
    pub ident: String,
    /// The segment carries no generic arguments.
    pub bare: bool,
}

/// The path of an attribute or of a `key = value` pair inside one.
pub struct AttrPath {
    /// The path starts with `::`.
    pub leading_colon: bool,
    pub segments: Vec<PathSegment>,
}

/// A literal, with the value of a string literal already unescaped.
pub enum Lit {
    Str(String),
    Other,
}

/// One item between the parentheses of a list attribute.
pub enum NestedMeta {
    /// `name`
    Path(AttrPath),
    /// `name(...)`
    List(AttrPath),
    /// `name = literal`
    NameValue(AttrPath, Lit),
    /// `literal`
    Lit(Lit),
}

/// What follows the path of an attribute.
pub enum AttrArgs {
    /// Nothing: `#[name]`.
    Path,
    /// `#[name(item, item, ...)]`
    List(Vec<NestedMeta>),
    /// `#[name = literal]`
    NameValue(Lit),
    /// Tokens that do not form any of the shapes above.
    Unparsable,
}

/// An attribute as written in the source.
pub struct RawAttribute {
    pub path: AttrPath,
    pub args: AttrArgs,
}

/// Why an attribute or a structure was refused.
#[derive(Clone, Copy, Debug, PartialEq, Eq, Structural)]
pub enum ErrorKind {
    /// A marker that is not of the form `#[as_ref(key = "value")]`.
    InvalidFormat,
    /// A marker whose value is not a string literal.
    NotString,
    /// A marker whose key is not a known one.
    UnsupportedKey,
    /// A `target` whose value does not spell an identifier.
    InvalidTarget,
    /// The item is not a struct.
    NotStruct,
    /// The struct has no field.
    NoField,
    /// A field has no name.
    UnnamedField,
}

/// `#[as_ref(target = "value")]` style attribute.
pub struct TargetAttribute {
    pub target: String,
}

/// `#[as_ref(key = "value")]` style attribute.
pub enum Attribute {
    /// `#[as_ref(target = "value")]` style attribute.
    Target(TargetAttribute),
}

/// The mathematical value of an [`Attribute`].
pub enum AttrSpec {
    Target(Seq<char>),
}

impl View for Attribute {
    type V = AttrSpec;

    open spec fn view(&self) -> AttrSpec {
        match self {
            Attribute::Target(t) => AttrSpec::Target(t.target@),
        }
    }
}

/// The path of a marker attribute: `as_ref`.
pub open spec fn marker_name() -> Seq<char> {
    "as_ref"@
}

/// The key of a target attribute: `target`.
pub open spec fn target_key() -> Seq<char> {
    "target"@
}

/// The single identifier that a path consists of, if it is one.
pub open spec fn path_ident(p: AttrPath) -> Option<Seq<char>> {
    if !p.leading_colon && p.segments@.len() == 1 && p.segments@[0].bare {
        Some(p.segments@[0].ident@)
    } else {
        None
    }
}

/// The attribute is a marker of this library.
pub open spec fn is_marker(a: RawAttribute) -> bool {
    path_ident(a.path) == Some(marker_name())
}

/// The key and the value of the single `key = value` pair of a marker.
pub open spec fn key_value_spec(a: RawAttribute) -> Result<(Seq<char>, Lit), ErrorKind> {
    if !is_marker(a) {
        Err(ErrorKind::InvalidFormat)
    } else {
        match a.args {
            AttrArgs::List(items) => {
                if items@.len() != 1 {
                    Err(ErrorKind::InvalidFormat)
                } else {
                    match items@[0] {
                        NestedMeta::NameValue(p, lit) => match path_ident(p) {
                            Some(k) => Ok((k, lit)),
                            None => Err(ErrorKind::InvalidFormat),
                        },
                        _ => Err(ErrorKind::InvalidFormat),
                    }
                }
            },
            _ => Err(ErrorKind::InvalidFormat),
        }
    }
}

/// The attribute that a raw attribute parses into, or why it does not.
pub open spec fn attribute_spec(a: RawAttribute) -> Result<AttrSpec, ErrorKind> {
    match key_value_spec(a) {
        Err(e) => Err(e),
        Ok((k, lit)) => {
            if k == target_key() {
                match lit {
                    Lit::Str(s) => if is_ident(s@) {
                        Ok(AttrSpec::Target(s@))
                    } else {
                        Err(ErrorKind::InvalidTarget)
                    },
                    Lit::Other => Err(ErrorKind::NotString),
                }
            } else {
                Err(ErrorKind::UnsupportedKey)
            }
        },
    }
}

/// Tells whether `p` is the single identifier `name`.
fn path_is_ident(p: &AttrPath, name: &str) -> (r: bool)
    ensures
        r == (path_ident(*p) == Some(name@)),
{
    if p.leading_colon || p.segments.len() != 1 || !p.segments[0].bare {
        return false;
    }
    p.segments[0].ident == String::from_str(name)
}

/// The identifier of a path, if the path is a single identifier.
fn path_get_ident(p: &AttrPath) -> (r: Option<String>)
    ensures
        path_ident(*p) == (match r {
            Some(t) => Some(t@),
            None => None::<Seq<char>>,
        }),
{
    if p.leading_colon || p.segments.len() != 1 || !p.segments[0].bare {
        return None;
    }
    Some(p.segments[0].ident.clone())
}

/// Tells whether `attr` is a marker of this library.
pub fn is_marker_attribute(attr: &RawAttribute) -> (r: bool)
    ensures
        r == is_marker(*attr),
{
    path_is_ident(&attr.path, "as_ref")
}


impl Lit {
    /// A copy of the literal.
    pub fn copy(&self) -> (r: Lit)
        ensures
            r == *self,
    {
        match self {
            Lit::Str(s) => Lit::Str(s.clone()),
            Lit::Other => Lit::Other,
        }
    }
}

/// The single `key = value` pair of a marker: `#[as_ref(key = value)]`.
struct AbstractAttribute {
    key: String,
    value: Lit,
}

impl AbstractAttribute {
    /// Reads the single `key = value` pair of a marker attribute.
    fn try_from(origin: &RawAttribute) -> (r: Result<AbstractAttribute, ErrorKind>)
        ensures
            key_value_spec(*origin) == (match r {
                Ok(kv) => Ok((kv.key@, kv.value)),
                Err(e) => Err::<(Seq<char>, Lit), ErrorKind>(e),
            }),
    {
        // only attributes whose path is the marker's are handled
        if !is_marker_attribute(origin) {
            return Err(ErrorKind::InvalidFormat);
        }
        let nested = match &origin.args {
            AttrArgs::List(items) => items,
            _ => return Err(ErrorKind::InvalidFormat),
        };
        if nested.len() != 1 {
            return Err(ErrorKind::InvalidFormat);
        }
        match &nested[0] {
            NestedMeta::NameValue(path, lit) => match path_get_ident(path) {
                Some(key) => Ok(AbstractAttribute { key, value: lit.copy() }),
                None => Err(ErrorKind::InvalidFormat),
            },
            _ => Err(ErrorKind::InvalidFormat),
        }
    }
}

impl TargetAttribute {
    /// Reads the target type out of the value of a `target` pair.
    fn try_from_lit(lit: &Lit) -> (r: Result<TargetAttribute, ErrorKind>)
        ensures
            match lit {
                Lit::Str(s) => if is_ident(s@) {
                    r matches Ok(a) && a.target@ == s@
                } else {
                    r == Err::<TargetAttribute, ErrorKind>(ErrorKind::InvalidTarget)
                },
                Lit::Other => r == Err::<TargetAttribute, ErrorKind>(ErrorKind::NotString),
            },
    {
        let target_str = match lit {
            Lit::Str(s) => s,
            Lit::Other => return Err(ErrorKind::NotString),
        };
        if is_ident_str(target_str.as_str()) {
            Ok(TargetAttribute { target: target_str.clone() })
        } else {
            Err(ErrorKind::InvalidTarget)
        }
    }
}

impl Attribute {
    /// The target attribute, if this is one.
    pub fn to_target(&self) -> (r: Option<&TargetAttribute>)
        ensures
            match self {
                Attribute::Target(t) => r == Some(t),
            },
    {
        match self {
            Attribute::Target(attr) => Some(attr),
        }
    }

    /// Parses a marker attribute: `#[as_ref(target = "Type")]`.
    pub fn try_from(origin: &RawAttribute) -> (r: Result<Attribute, ErrorKind>)
        ensures
            attribute_spec(*origin) == (match r {
                Ok(a) => Ok(a@),
                Err(e) => Err::<AttrSpec, ErrorKind>(e),
            }),
    {
        let item = AbstractAttribute::try_from(origin)?;
        if item.key == String::from_str("target") {
            let target_attr = TargetAttribute::try_from_lit(&item.value)?;
            Ok(Attribute::Target(target_attr))
        } else {
            Err(ErrorKind::UnsupportedKey)
        }
    }
}

} // verus!
