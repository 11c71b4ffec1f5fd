//! The bounded projection of an interface type into discovery records: one record per type
//! object reached, and one per structural field, depth first.

use crate::artifact::{digest_byte_vec, digest_bytes};
use crate::authority::{hex, hex_text};
use crate::diagnostic::{static_message, Diagnostic, DiagnosticClass};
use crate::digest::ObjectDigest;
use crate::kernel::PackageId;
use crate::text::{decimal, decimal_text};
use vstd::prelude::*;
use vstd::string::StringExecFns;

verus! {

/// The deepest type nesting a projection follows.
pub const TYPE_PROJECTION_MAXIMUM_DEPTH: usize = 128;

/// The most records a projection appends to.
pub const TYPE_PROJECTION_MAXIMUM_RECORDS: usize = 10000;

/// One field of a structural record type: its name and its type.
#[derive(Clone, Debug)]
pub struct StructuralField {
    pub name: String,
    pub ty: ObjectDigest,
}

/// The form of an interface type object; nested types are named by digest.
#[derive(Clone, Debug)]
pub enum TypeForm {
    Unit,
    Bool,
    I64,
    Bytes,
    Text,
    StaticText,
    Secret,
    TypeParameter { parameter: u64 },
    Named { package: PackageId, declaration: u64 },
    CapabilityResource { package: PackageId, declaration: u64 },
    StructuralRecord { fields: Vec<StructuralField> },
    List { item: ObjectDigest },
    Mapping { key: ObjectDigest, value: ObjectDigest },
    Optional { item: ObjectDigest },
    Outcome { ok: ObjectDigest, error: ObjectDigest },
    Stream { item: ObjectDigest },
    Function { parameters: Vec<ObjectDigest>, result: ObjectDigest },
}

/// The form of an interface type object, as plain values.
pub enum TypeFormView {
    Unit,
    Bool,
    I64,
    Bytes,
    Text,
    StaticText,
    Secret,
    TypeParameter { parameter: u64 },
    Named { package: PackageId, declaration: u64 },
    CapabilityResource { package: PackageId, declaration: u64 },
    StructuralRecord { fields: Seq<(Seq<char>, ObjectDigest)> },
    List { item: ObjectDigest },
    Mapping { key: ObjectDigest, value: ObjectDigest },
    Optional { item: ObjectDigest },
    Outcome { ok: ObjectDigest, error: ObjectDigest },
    Stream { item: ObjectDigest },
    Function { parameters: Seq<ObjectDigest>, result: ObjectDigest },
}

impl View for TypeForm {
    type V = TypeFormView;

    open spec fn view(&self) -> TypeFormView {
        match self {
            TypeForm::Unit => TypeFormView::Unit,
            TypeForm::Bool => TypeFormView::Bool,
            TypeForm::I64 => TypeFormView::I64,
            TypeForm::Bytes => TypeFormView::Bytes,
            TypeForm::Text => TypeFormView::Text,
            TypeForm::StaticText => TypeFormView::StaticText,
            TypeForm::Secret => TypeFormView::Secret,
            TypeForm::TypeParameter { parameter } => TypeFormView::TypeParameter { parameter: *parameter },
            TypeForm::Named { package, declaration } => TypeFormView::Named { package: *package, declaration: *declaration },
            TypeForm::CapabilityResource { package, declaration } => TypeFormView::CapabilityResource {
                package: *package,
                declaration: *declaration,
            },
            TypeForm::StructuralRecord { fields } => TypeFormView::StructuralRecord {
                fields: fields@.map_values(|field: StructuralField| (field.name@, field.ty)),
            },
            TypeForm::List { item } => TypeFormView::List { item: *item },
            TypeForm::Mapping { key, value } => TypeFormView::Mapping { key: *key, value: *value },
            TypeForm::Optional { item } => TypeFormView::Optional { item: *item },
            TypeForm::Outcome { ok, error } => TypeFormView::Outcome { ok: *ok, error: *error },
            TypeForm::Stream { item } => TypeFormView::Stream { item: *item },
            TypeForm::Function { parameters, result } => TypeFormView::Function { parameters: parameters@, result: *result },
        }
    }
}

/// The exact type objects of a package interface, each under its digest.
pub struct InterfaceModel {
    pub types: Vec<(ObjectDigest, TypeForm)>,
}

impl View for InterfaceModel {
    type V = Seq<(ObjectDigest, TypeFormView)>;

    open spec fn view(&self) -> Seq<(ObjectDigest, TypeFormView)> {
        self.types@.map_values(|entry: (ObjectDigest, TypeForm)| (entry.0, entry.1@))
    }
}

/// One discovery record: an operation and its named fields, in order.
#[derive(Clone, Debug)]
pub struct DiscoveryRecord {
    pub operation: String,
    pub fields: Vec<(String, String)>,
}

/// One discovery record, as plain values.
pub struct RecordView {
    pub operation: Seq<char>,
    pub fields: Seq<(Seq<char>, Seq<char>)>,
}

impl View for DiscoveryRecord {
    type V = RecordView;

    open spec fn view(&self) -> RecordView {
        RecordView {
            operation: self.operation@,
            fields: self.fields@.map_values(|field: (String, String)| (field.0@, field.1@)),
        }
    }
}

/// The records of a run of discovery records, as plain values.
pub open spec fn records_view(records: Seq<DiscoveryRecord>) -> Seq<RecordView> {
    records.map_values(|record: DiscoveryRecord| record@)
}

/// The form first bound to `digest`.
pub open spec fn type_form_of(types: Seq<(ObjectDigest, TypeFormView)>, digest: ObjectDigest) -> Option<TypeFormView>
    decreases types.len(),
{
    if types.len() == 0 {
        None
    } else if types[0].0 == digest {
        Some(types[0].1)
    } else {
        type_form_of(types.drop_first(), digest)
    }
}

/// The name of a type form.
pub open spec fn form_name(form: TypeFormView) -> Seq<char> {
    match form {
        TypeFormView::Unit => "unit"@,
        TypeFormView::Bool => "bool"@,
        TypeFormView::I64 => "i64"@,
        TypeFormView::Bytes => "bytes"@,
        TypeFormView::Text => "text"@,
        TypeFormView::StaticText => "static-text"@,
        TypeFormView::Secret => "secret"@,
        TypeFormView::TypeParameter { .. } => "parameter"@,
        TypeFormView::Named { .. } => "named"@,
        TypeFormView::CapabilityResource { .. } => "capability-resource"@,
        TypeFormView::StructuralRecord { .. } => "structural-record"@,
        TypeFormView::List { .. } => "list"@,
        TypeFormView::Mapping { .. } => "map"@,
        TypeFormView::Optional { .. } => "option"@,
        TypeFormView::Outcome { .. } => "result"@,
        TypeFormView::Stream { .. } => "stream"@,
        TypeFormView::Function { .. } => "function"@,
    }
}

/// The text of an exact declaration reference: package, then declaration.
pub open spec fn reference_text(package: PackageId, declaration: u64) -> Seq<char> {
    decimal_text(package.0) + "/"@ + decimal_text(declaration)
}

/// The fields the record of a type carries beyond its path, digest and form.
pub open spec fn form_fields(form: TypeFormView) -> Seq<(Seq<char>, Seq<char>)> {
    match form {
        TypeFormView::TypeParameter { parameter } => seq![("parameter"@, decimal_text(parameter))],
        TypeFormView::Named { package, declaration } => seq![("reference"@, reference_text(package, declaration))],
        TypeFormView::CapabilityResource { package, declaration } => seq![("interface"@, reference_text(package, declaration))],
        TypeFormView::StructuralRecord { fields } => seq![("fields"@, decimal_text(fields.len() as u64))],
        TypeFormView::Function { parameters, .. } => seq![("parameters"@, decimal_text(parameters.len() as u64))],
        _ => Seq::empty(),
    }
}

/// The record of the type under `digest` with form `form`, reached at `path`.
pub open spec fn type_record(path: Seq<char>, digest: ObjectDigest, form: TypeFormView) -> RecordView {
    RecordView {
        operation: "type"@,
        fields: seq![("path"@, path), ("digest"@, hex_text(digest_bytes(digest))), ("form"@, form_name(form))]
            + form_fields(form),
    }
}

/// The record of a structural field, emitted before the field's type.
pub open spec fn field_record(parent: Seq<char>, index: nat, name: Seq<char>) -> RecordView {
    RecordView {
        operation: "type.field"@,
        fields: seq![
            ("parent"@, parent),
            ("index"@, decimal_text(index as u64)),
            ("name"@, name),
            ("type-path"@, parent + "."@ + name),
        ],
    }
}

/// One nested type to project: the record emitted before it, if any, its path and its digest.
pub type NestedType = (Option<RecordView>, Seq<char>, ObjectDigest);

/// The nested types of a form reached at `path`, in projection order.
pub open spec fn nested_types(path: Seq<char>, form: TypeFormView) -> Seq<NestedType> {
    match form {
        TypeFormView::StructuralRecord { fields } => Seq::new(
            fields.len(),
            |i: int| (Some(field_record(path, i as nat, fields[i].0)), path + "."@ + fields[i].0, fields[i].1),
        ),
        TypeFormView::List { item } => seq![(None, path + ".item"@, item)],
        TypeFormView::Optional { item } => seq![(None, path + ".item"@, item)],
        TypeFormView::Stream { item } => seq![(None, path + ".item"@, item)],
        TypeFormView::Mapping { key, value } => seq![(None, path + ".key"@, key), (None, path + ".value"@, value)],
        TypeFormView::Outcome { ok, error } => seq![(None, path + ".ok"@, ok), (None, path + ".error"@, error)],
        TypeFormView::Function { parameters, result } => Seq::new(
            parameters.len(),
            |i: int| (None, path + ".parameter."@ + decimal_text(i as u64), parameters[i]),
        ).push((None, path + ".result"@, result)),
        _ => Seq::empty(),
    }
}

/// The measure of a projection at `depth`.
pub open spec fn depth_measure(depth: nat) -> nat {
    if depth > 129 {
        0
    } else {
        (130 - depth) as nat
    }
}

/// The records projecting the type under `digest` at `path` and `depth` appends after `prior`
/// records, or the code of its refusal.
pub open spec fn type_projection(
    types: Seq<(ObjectDigest, TypeFormView)>,
    path: Seq<char>,
    digest: ObjectDigest,
    depth: nat,
    prior: nat,
) -> Result<Seq<RecordView>, Seq<char>>
    decreases depth_measure(depth), 0nat,
{
    if depth > 128 || prior >= 10000 {
        Err("builtin_type_projection_limit"@)
    } else {
        match type_form_of(types, digest) {
            None => Err("builtin_interface_type"@),
            Some(form) => match nested_projection(types, nested_types(path, form), 0, depth + 1, prior + 1) {
                Err(code) => Err(code),
                Ok(rest) => Ok(seq![type_record(path, digest, form)] + rest),
            },
        }
    }
}

/// Projecting two nested types without records of their own: the first's records, then the
/// second's.
proof fn lemma_two_nested(
    types: Seq<(ObjectDigest, TypeFormView)>,
    first_path: Seq<char>,
    first: ObjectDigest,
    second_path: Seq<char>,
    second: ObjectDigest,
    depth: nat,
    prior: nat,
)
    requires
        nested_projection(types, seq![(None, first_path, first), (None, second_path, second)], 0, depth, prior) is Ok,
    ensures
        type_projection(types, first_path, first, depth, prior) matches Ok(head)
            && type_projection(types, second_path, second, depth, prior + head.len()) matches Ok(tail)
            && nested_projection(types, seq![(None, first_path, first), (None, second_path, second)], 0, depth, prior)
                == Ok::<Seq<RecordView>, Seq<char>>(head + tail),
{
    let nested: Seq<NestedType> = seq![(None, first_path, first), (None, second_path, second)];
    assert(nested[0] == (None::<RecordView>, first_path, first));
    assert(nested[1] == (None::<RecordView>, second_path, second));
    let head = type_projection(types, first_path, first, depth, prior)->Ok_0;
    assert(Seq::<RecordView>::empty().len() == 0);
    let tail = type_projection(types, second_path, second, depth, prior + head.len())->Ok_0;
    assert(nested_projection(types, nested, 2, depth, prior + head.len() + tail.len()) == Ok::<Seq<RecordView>, Seq<char>>(Seq::empty()));
    assert(nested_projection(types, nested, 1, depth, prior + head.len()) == Ok::<Seq<RecordView>, Seq<char>>(Seq::empty() + tail + Seq::empty()));
    assert(Seq::<RecordView>::empty() + tail + Seq::<RecordView>::empty() =~= tail);
    assert(Seq::<RecordView>::empty() + head + tail =~= head + tail);
}

/// Projecting one nested type without a record of its own: its records.
proof fn lemma_one_nested(
    types: Seq<(ObjectDigest, TypeFormView)>,
    path: Seq<char>,
    digest: ObjectDigest,
    depth: nat,
    prior: nat,
)
    requires
        nested_projection(types, seq![(None, path, digest)], 0, depth, prior) is Ok,
    ensures
        type_projection(types, path, digest, depth, prior) matches Ok(inner)
            && nested_projection(types, seq![(None, path, digest)], 0, depth, prior) == Ok::<Seq<RecordView>, Seq<char>>(inner),
{
    let nested: Seq<NestedType> = seq![(None, path, digest)];
    assert(nested[0] == (None::<RecordView>, path, digest));
    let inner = type_projection(types, path, digest, depth, prior)->Ok_0;
    assert(nested_projection(types, nested, 1, depth, prior + inner.len()) == Ok::<Seq<RecordView>, Seq<char>>(Seq::empty()));
    assert(Seq::<RecordView>::empty() + inner + Seq::<RecordView>::empty() =~= inner);
}

/// A projection deeper than 128 levels or begun with 10 000 records already emitted is refused
/// for its limit; one of a digest the interface lacks is refused as naming a missing type; any
/// other projection starts with the type's own record: operation `type`, then its path, its
/// digest in hexadecimal and the name of its form.
pub proof fn projection_limits_and_head(
    types: Seq<(ObjectDigest, TypeFormView)>,
    path: Seq<char>,
    digest: ObjectDigest,
    depth: nat,
    prior: nat,
)
    ensures
        depth > 128 || prior >= 10000 ==> type_projection(types, path, digest, depth, prior)
            == Err::<Seq<RecordView>, Seq<char>>("builtin_type_projection_limit"@),
        depth <= 128 && prior < 10000 && type_form_of(types, digest) is None ==> type_projection(types, path, digest, depth, prior)
            == Err::<Seq<RecordView>, Seq<char>>("builtin_interface_type"@),
        type_projection(types, path, digest, depth, prior) matches Ok(records) ==> ({
            let head = records[0];
            &&& records.len() >= 1
            &&& head.operation == "type"@
            &&& head.fields.len() >= 3
            &&& head.fields[0] == ("path"@, path)
            &&& head.fields[1] == ("digest"@, hex_text(digest_bytes(digest)))
            &&& head.fields[2].0 == "form"@
            &&& head.fields[2].1 == match type_form_of(types, digest)->Some_0 {
                TypeFormView::Unit => "unit"@,
                TypeFormView::Bool => "bool"@,
                TypeFormView::I64 => "i64"@,
                TypeFormView::Bytes => "bytes"@,
                TypeFormView::Text => "text"@,
                TypeFormView::StaticText => "static-text"@,
                TypeFormView::Secret => "secret"@,
                TypeFormView::TypeParameter { .. } => "parameter"@,
                TypeFormView::Named { .. } => "named"@,
                TypeFormView::CapabilityResource { .. } => "capability-resource"@,
                TypeFormView::StructuralRecord { .. } => "structural-record"@,
                TypeFormView::List { .. } => "list"@,
                TypeFormView::Mapping { .. } => "map"@,
                TypeFormView::Optional { .. } => "option"@,
                TypeFormView::Outcome { .. } => "result"@,
                TypeFormView::Stream { .. } => "stream"@,
                TypeFormView::Function { .. } => "function"@,
            }
        }),
{
    if type_projection(types, path, digest, depth, prior) is Ok {
        let form = type_form_of(types, digest)->Some_0;
        let rest = nested_projection(types, nested_types(path, form), 0, depth + 1, prior + 1)->Ok_0;
        assert((seq![type_record(path, digest, form)] + rest)[0] == type_record(path, digest, form));
    }
}

/// A projected structural record lists its own record, then its first field's record (parent,
/// index 0, name and the field's type path), then the projection of that field's type at the
/// parent's path, a dot and the field's name.
pub proof fn projection_of_record_starts_with_first_field(
    types: Seq<(ObjectDigest, TypeFormView)>,
    path: Seq<char>,
    digest: ObjectDigest,
    depth: nat,
    prior: nat,
)
    requires
        type_projection(types, path, digest, depth, prior) is Ok,
    ensures
        ({
            let form = type_form_of(types, digest)->Some_0;
            let fields = form->StructuralRecord_fields;
            let records = type_projection(types, path, digest, depth, prior)->Ok_0;
            let name = fields[0].0;
            (form is StructuralRecord) && fields.len() > 0 ==> {
                &&& records[1] == (RecordView {
                    operation: "type.field"@,
                    fields: seq![
                        ("parent"@, path),
                        ("index"@, "0"@),
                        ("name"@, name),
                        ("type-path"@, path + "."@ + name),
                    ],
                })
                &&& type_projection(types, path + "."@ + name, fields[0].1, depth + 1, prior + 2) matches Ok(inner)
                &&& records.subrange(2, 2 + inner.len() as int) == inner
            }
        }),
{
    if let Some(TypeFormView::StructuralRecord { fields }) = type_form_of(types, digest) {
        if fields.len() > 0 {
            let form = type_form_of(types, digest)->Some_0;
            let nested = nested_types(path, form);
            let name = fields[0].0;
            assert(nested[0] == (Some(field_record(path, 0, name)), path + "."@ + name, fields[0].1));
            let rest = nested_projection(types, nested, 0, depth + 1, prior + 1)->Ok_0;
            let inner = type_projection(types, path + "."@ + name, fields[0].1, depth + 1, prior + 2)->Ok_0;
            let later = nested_projection(types, nested, 1, depth + 1, prior + 2 + inner.len())->Ok_0;
            assert(rest == seq![field_record(path, 0, name)] + inner + later);
            assert(decimal_text(0) =~= "0"@) by {
                reveal_strlit("0");
            }
            let records = seq![type_record(path, digest, form)] + rest;
            assert(records[1] == field_record(path, 0, name));
            assert(records.subrange(2, 2 + inner.len() as int) =~= inner);
        }
    }
}

/// A projected result type lists its own record, then the projection of its ok type at `.ok`,
/// then that of its error type at `.error`; a map lists its key type at `.key` before its value
/// type at `.value`; a list, an option or a stream lists its item type at `.item`.
pub proof fn projection_places_nested_types(
    types: Seq<(ObjectDigest, TypeFormView)>,
    path: Seq<char>,
    digest: ObjectDigest,
    depth: nat,
    prior: nat,
)
    requires
        type_projection(types, path, digest, depth, prior) is Ok,
    ensures
        type_form_of(types, digest) matches Some(TypeFormView::Outcome { ok, error }) ==> {
            &&& type_projection(types, path + ".ok"@, ok, depth + 1, prior + 1) matches Ok(first)
            &&& type_projection(types, path + ".error"@, error, depth + 1, prior + 1 + first.len()) matches Ok(second)
            &&& type_projection(types, path, digest, depth, prior) == Ok::<Seq<RecordView>, Seq<char>>(
                seq![type_record(path, digest, TypeFormView::Outcome { ok, error })] + first + second)
        },
        type_form_of(types, digest) matches Some(TypeFormView::Mapping { key, value }) ==> {
            &&& type_projection(types, path + ".key"@, key, depth + 1, prior + 1) matches Ok(first)
            &&& type_projection(types, path + ".value"@, value, depth + 1, prior + 1 + first.len()) matches Ok(second)
            &&& type_projection(types, path, digest, depth, prior) == Ok::<Seq<RecordView>, Seq<char>>(
                seq![type_record(path, digest, TypeFormView::Mapping { key, value })] + first + second)
        },
        type_form_of(types, digest) matches Some(TypeFormView::List { item }) ==> {
            &&& type_projection(types, path + ".item"@, item, depth + 1, prior + 1) matches Ok(inner)
            &&& type_projection(types, path, digest, depth, prior) == Ok::<Seq<RecordView>, Seq<char>>(
                seq![type_record(path, digest, TypeFormView::List { item })] + inner)
        },
        type_form_of(types, digest) matches Some(TypeFormView::Optional { item }) ==> {
            &&& type_projection(types, path + ".item"@, item, depth + 1, prior + 1) matches Ok(inner)
            &&& type_projection(types, path, digest, depth, prior) == Ok::<Seq<RecordView>, Seq<char>>(
                seq![type_record(path, digest, TypeFormView::Optional { item })] + inner)
        },
        type_form_of(types, digest) matches Some(TypeFormView::Stream { item }) ==> {
            &&& type_projection(types, path + ".item"@, item, depth + 1, prior + 1) matches Ok(inner)
            &&& type_projection(types, path, digest, depth, prior) == Ok::<Seq<RecordView>, Seq<char>>(
                seq![type_record(path, digest, TypeFormView::Stream { item })] + inner)
        },
{
    let form = type_form_of(types, digest)->Some_0;
    match form {
        TypeFormView::Outcome { ok, error } => {
            assert(nested_types(path, form) == seq![(None::<RecordView>, path + ".ok"@, ok), (None::<RecordView>, path + ".error"@, error)]);
            lemma_two_nested(types, path + ".ok"@, ok, path + ".error"@, error, depth + 1, prior + 1);
            let head = type_projection(types, path + ".ok"@, ok, depth + 1, prior + 1)->Ok_0;
            let tail = type_projection(types, path + ".error"@, error, depth + 1, prior + 1 + head.len())->Ok_0;
            let record = type_record(path, digest, TypeFormView::Outcome { ok, error });
            assert(seq![record] + (head + tail) =~= seq![record] + head + tail);
        },
        TypeFormView::Mapping { key, value } => {
            assert(nested_types(path, form) == seq![(None::<RecordView>, path + ".key"@, key), (None::<RecordView>, path + ".value"@, value)]);
            lemma_two_nested(types, path + ".key"@, key, path + ".value"@, value, depth + 1, prior + 1);
            let head = type_projection(types, path + ".key"@, key, depth + 1, prior + 1)->Ok_0;
            let tail = type_projection(types, path + ".value"@, value, depth + 1, prior + 1 + head.len())->Ok_0;
            let record = type_record(path, digest, TypeFormView::Mapping { key, value });
            assert(seq![record] + (head + tail) =~= seq![record] + head + tail);
        },
        TypeFormView::List { item } => {
            lemma_one_nested(types, path + ".item"@, item, depth + 1, prior + 1);
        },
        TypeFormView::Optional { item } => {
            lemma_one_nested(types, path + ".item"@, item, depth + 1, prior + 1);
        },
        TypeFormView::Stream { item } => {
            lemma_one_nested(types, path + ".item"@, item, depth + 1, prior + 1);
        },
        _ => {},
    }
}

/// The records projecting the nested types of `nested` from `start` on appends after `prior`
/// records, or the code of the first refusal.
pub open spec fn nested_projection(
    types: Seq<(ObjectDigest, TypeFormView)>,
    nested: Seq<NestedType>,
    start: nat,
    depth: nat,
    prior: nat,
) -> Result<Seq<RecordView>, Seq<char>>
    decreases depth_measure(depth), nested.len() - start + 1,
{
    if start >= nested.len() {
        Ok(Seq::empty())
    } else {
        let item = nested[start as int];
        let before = match item.0 {
            Some(record) => seq![record],
            None => Seq::empty(),
        };
        match type_projection(types, item.1, item.2, depth, prior + before.len()) {
            Err(code) => Err(code),
            Ok(inner) => match nested_projection(types, nested, start + 1, depth, prior + before.len() + inner.len()) {
                Err(code) => Err(code),
                Ok(rest) => Ok(before + inner + rest),
            },
        }
    }
}

/// A nested type to project, as the projection holds it.
pub type NestedEntry = (Option<DiscoveryRecord>, String, ObjectDigest);

/// Nested types, as plain values.
pub open spec fn nested_view(nested: Seq<NestedEntry>) -> Seq<NestedType> {
    nested.map_values(|entry: NestedEntry| (
        match entry.0 {
            Some(record) => Some(record@),
            None => None,
        },
        entry.1@,
        entry.2,
    ))
}

/// The class of a projection refusal: a bound is a resource refusal, a missing type a corrupt
/// interface.
pub open spec fn projection_class(code: Seq<char>) -> DiagnosticClass {
    if code == "builtin_type_projection_limit"@ {
        DiagnosticClass::Resource
    } else {
        DiagnosticClass::Corrupt
    }
}

/// The refusal of a projection past its depth or record bound.
fn projection_limit() -> (r: Diagnostic)
    ensures
        r.class == DiagnosticClass::Resource,
        r.code@ == "builtin_type_projection_limit"@,
{
    Diagnostic::new(
        DiagnosticClass::Resource,
        "builtin_type_projection_limit",
        static_message("built-in type projection exceeded its depth or record bound"),
    )
}

/// The form bound to `digest` in the interface.
fn find_form(model: &InterfaceModel, digest: ObjectDigest) -> (r: Option<&TypeForm>)
    ensures
        match r {
            Some(form) => type_form_of(model@, digest) == Some(form@),
            None => type_form_of(model@, digest) is None,
        },
{
    let mut i: usize = 0;
    assert(model@.skip(0) =~= model@);
    while i < model.types.len()
        invariant
            i <= model.types@.len(),
            type_form_of(model@, digest) == type_form_of(model@.skip(i as int), digest),
        decreases model.types@.len() - i,
    {
        assert(model@.skip(i as int).drop_first() =~= model@.skip(i + 1));
        assert(model@.skip(i as int)[0] == model@[i as int]);
        if model.types[i].0 == digest {
            return Some(&model.types[i].1);
        }
        i = i + 1;
    }
    None
}

/// The name of a form.
fn form_name_of(form: &TypeForm) -> (r: &'static str)
    ensures
        r@ == form_name(form@),
{
    match form {
        TypeForm::Unit => "unit",
        TypeForm::Bool => "bool",
        TypeForm::I64 => "i64",
        TypeForm::Bytes => "bytes",
        TypeForm::Text => "text",
        TypeForm::StaticText => "static-text",
        TypeForm::Secret => "secret",
        TypeForm::TypeParameter { .. } => "parameter",
        TypeForm::Named { .. } => "named",
        TypeForm::CapabilityResource { .. } => "capability-resource",
        TypeForm::StructuralRecord { .. } => "structural-record",
        TypeForm::List { .. } => "list",
        TypeForm::Mapping { .. } => "map",
        TypeForm::Optional { .. } => "option",
        TypeForm::Outcome { .. } => "result",
        TypeForm::Stream { .. } => "stream",
        TypeForm::Function { .. } => "function",
    }
}

/// The text of a declaration reference.
fn reference(package: PackageId, declaration: u64) -> (r: String)
    ensures
        r@ == reference_text(package, declaration),
{
    let mut text = decimal(package.0);
    text.append("/");
    text.append(decimal(declaration).as_str());
    text
}

/// A named field of a record.
fn field(name: &str, value: String) -> (r: (String, String))
    ensures
        r.0@ == name@,
        r.1@ == value@,
{
    (String::from_str(name), value)
}

/// The record of the type under `digest` with form `form`, reached at `path`.
fn record_of_type(path: &str, digest: ObjectDigest, form: &TypeForm) -> (r: DiscoveryRecord)
    ensures
        r@ == type_record(path@, digest, form@),
{
    let mut fields: Vec<(String, String)> = Vec::new();
    fields.push(field("path", String::from_str(path)));
    let bytes = digest_byte_vec(digest);
    fields.push(field("digest", hex(bytes.as_slice())));
    fields.push(field("form", String::from_str(form_name_of(form))));
    match form {
        TypeForm::TypeParameter { parameter } => {
            fields.push(field("parameter", decimal(*parameter)));
        },
        TypeForm::Named { package, declaration } => {
            fields.push(field("reference", reference(*package, *declaration)));
        },
        TypeForm::CapabilityResource { package, declaration } => {
            fields.push(field("interface", reference(*package, *declaration)));
        },
        TypeForm::StructuralRecord { fields: structural } => {
            fields.push(field("fields", decimal(structural.len() as u64)));
        },
        TypeForm::Function { parameters, .. } => {
            fields.push(field("parameters", decimal(parameters.len() as u64)));
        },
        _ => {},
    }
    let record = DiscoveryRecord { operation: String::from_str("type"), fields };
    proof {
        let expected = type_record(path@, digest, form@);
        assert(record@.fields =~= expected.fields);
    }
    record
}

/// The nested types of a form reached at `path`, in projection order.
fn nested_of(path: &str, form: &TypeForm) -> (r: Vec<NestedEntry>)
    ensures
        nested_view(r@) == nested_types(path@, form@),
{
    let mut nested: Vec<NestedEntry> = Vec::new();
    match form {
        TypeForm::StructuralRecord { fields } => {
            let mut i: usize = 0;
            while i < fields.len()
                invariant
                    i <= fields@.len(),
                    form@ == (TypeFormView::StructuralRecord { fields: fields@.map_values(|f: StructuralField| (f.name@, f.ty)) }),
                    nested_view(nested@) =~= nested_types(path@, form@).take(i as int),
                decreases fields@.len() - i,
            {
                let name = fields[i].name.as_str();
                let mut child = String::from_str(path);
                child.append(".");
                child.append(name);
                let mut record_fields: Vec<(String, String)> = Vec::new();
                record_fields.push(field("parent", String::from_str(path)));
                record_fields.push(field("index", decimal(i as u64)));
                record_fields.push(field("name", String::from_str(name)));
                record_fields.push(field("type-path", copy_text(&child)));
                let record = DiscoveryRecord { operation: String::from_str("type.field"), fields: record_fields };
                let ghost before = nested@;
                nested.push((Some(record), child, fields[i].ty));
                proof {
                    assert(record@.fields =~= field_record(path@, i as nat, fields@[i as int].name@).fields);
                    assert(nested_view(nested@) =~= nested_view(before).push(nested_view(nested@)[i as int]));
                    assert(nested_types(path@, form@).take(i + 1) =~= nested_types(path@, form@).take(i as int).push(nested_types(path@, form@)[i as int]));
                }
                i = i + 1;
            }
            assert(nested_types(path@, form@).take(fields@.len() as int) =~= nested_types(path@, form@));
        },
        TypeForm::List { item } | TypeForm::Optional { item } | TypeForm::Stream { item } => {
            let mut child = String::from_str(path);
            child.append(".item");
            nested.push((None, child, *item));
            assert(nested_view(nested@) =~= nested_types(path@, form@));
        },
        TypeForm::Mapping { key, value } => {
            let mut first = String::from_str(path);
            first.append(".key");
            let mut second = String::from_str(path);
            second.append(".value");
            nested.push((None, first, *key));
            nested.push((None, second, *value));
            assert(nested_view(nested@) =~= nested_types(path@, form@));
        },
        TypeForm::Outcome { ok, error } => {
            let mut first = String::from_str(path);
            first.append(".ok");
            let mut second = String::from_str(path);
            second.append(".error");
            nested.push((None, first, *ok));
            nested.push((None, second, *error));
            assert(nested_view(nested@) =~= nested_types(path@, form@));
        },
        TypeForm::Function { parameters, result } => {
            let mut i: usize = 0;
            while i < parameters.len()
                invariant
                    i <= parameters@.len(),
                    form@ == (TypeFormView::Function { parameters: parameters@, result: *result }),
                    nested_view(nested@) =~= nested_types(path@, form@).take(i as int),
                decreases parameters@.len() - i,
            {
                let mut child = String::from_str(path);
                child.append(".parameter.");
                child.append(decimal(i as u64).as_str());
                let ghost before = nested@;
                nested.push((None, child, parameters[i]));
                proof {
                    assert(nested_view(nested@) =~= nested_view(before).push(nested_view(nested@)[i as int]));
                    assert(nested_types(path@, form@).take(i + 1) =~= nested_types(path@, form@).take(i as int).push(nested_types(path@, form@)[i as int]));
                }
                i = i + 1;
            }
            let mut last = String::from_str(path);
            last.append(".result");
            let ghost before = nested@;
            nested.push((None, last, *result));
            proof {
                let full = nested_types(path@, form@);
                assert(full.take(parameters@.len() as int).push(full[parameters@.len() as int]) =~= full);
                assert(nested_view(nested@) =~= nested_view(before).push(nested_view(nested@)[parameters@.len() as int]));
            }
        },
        _ => {
            assert(nested_view(nested@) =~= nested_types(path@, form@));
        },
    }
    nested
}

/// Appends the projection of the type under `digest`, reached at `path` and `depth`, to
/// `records`: its record, then, depth first, the records of the types it nests. A projection
/// deeper than the depth bound, or begun with the record bound reached, is refused before it
/// appends anything.
pub fn append_type(
    model: &InterfaceModel,
    path: &str,
    digest: ObjectDigest,
    records: &mut Vec<DiscoveryRecord>,
    depth: usize,
) -> (r: Result<(), Diagnostic>)
    ensures
        match type_projection(model@, path@, digest, depth as nat, old(records)@.len()) {
            Ok(added) => r is Ok && records_view(final(records)@) == records_view(old(records)@) + added,
            Err(code) => r matches Err(d) && d.code@ == code && d.class == projection_class(code),
        },
        depth > 128 || old(records)@.len() >= 10000 ==> final(records)@ == old(records)@,
    decreases depth_measure(depth as nat), 0nat,
{
    if depth > TYPE_PROJECTION_MAXIMUM_DEPTH || records.len() >= TYPE_PROJECTION_MAXIMUM_RECORDS {
        return Err(projection_limit());
    }
    let form = match find_form(model, digest) {
        Some(form) => form,
        None => {
            proof {
                reveal_strlit("builtin_interface_type");
                reveal_strlit("builtin_type_projection_limit");
                assert("builtin_interface_type"@ != "builtin_type_projection_limit"@) by {
                    assert("builtin_interface_type"@[8] != "builtin_type_projection_limit"@[8]);
                }
            }
            return Err(Diagnostic::new(
                DiagnosticClass::Corrupt,
                "builtin_interface_type",
                static_message("built-in package interface names a missing exact type object"),
            ));
        },
    };
    let ghost before = records@;
    records.push(record_of_type(path, digest, form));
    let ghost pushed = records@;
    proof {
        assert(records_view(pushed) =~= records_view(before) + seq![type_record(path@, digest, form@)]);
    }
    let nested = nested_of(path, form);
    let r = append_nested(model, &nested, 0, records, depth + 1);
    proof {
        if let Ok(rest) = nested_projection(model@, nested_types(path@, form@), 0, depth as nat + 1, before.len() + 1) {
            assert(records_view(before) + seq![type_record(path@, digest, form@)] + rest
                =~= records_view(before) + (seq![type_record(path@, digest, form@)] + rest));
        }
    }
    r
}

/// A copy of a text.
fn copy_text(text: &String) -> (r: String)
    ensures
        r@ == text@,
{
    String::from_str(text.as_str())
}

/// A copy of a record.
fn copy_record(record: &DiscoveryRecord) -> (r: DiscoveryRecord)
    ensures
        r@ == record@,
{
    let mut fields: Vec<(String, String)> = Vec::new();
    let mut i: usize = 0;
    while i < record.fields.len()
        invariant
            i <= record.fields@.len(),
            fields@.len() == i,
            fields@.map_values(|f: (String, String)| (f.0@, f.1@))
                =~= record.fields@.take(i as int).map_values(|f: (String, String)| (f.0@, f.1@)),
        decreases record.fields@.len() - i,
    {
        let ghost prev = fields@;
        fields.push((copy_text(&record.fields[i].0), copy_text(&record.fields[i].1)));
        proof {
            assert(fields@[i as int].0@ == record.fields@[i as int].0@);
            assert(record.fields@.take(i + 1) =~= record.fields@.take(i as int).push(record.fields@[i as int]));
            assert(fields@ =~= prev.push(fields@[i as int]));
        }
        proof {
            let mine = fields@.map_values(|f: (String, String)| (f.0@, f.1@));
            let theirs = record.fields@.take(i + 1).map_values(|f: (String, String)| (f.0@, f.1@));
            let old_mine = prev.map_values(|f: (String, String)| (f.0@, f.1@));
            let old_theirs = record.fields@.take(i as int).map_values(|f: (String, String)| (f.0@, f.1@));
            assert forall|k: int| 0 <= k < i + 1 implies mine[k] == theirs[k] by {
                if k < i {
                    assert(mine[k] == old_mine[k]);
                    assert(old_mine[k] == old_theirs[k]);
                }
            }
            assert(mine =~= theirs);
        }
        i = i + 1;
    }
    assert(record.fields@.take(record.fields@.len() as int) =~= record.fields@);
    DiscoveryRecord { operation: copy_text(&record.operation), fields }
}

/// Appends the projections of the nested types of `nested` from `start` on, at `depth`, each
/// after its leading record, if any.
fn append_nested(
    model: &InterfaceModel,
    nested: &Vec<NestedEntry>,
    start: usize,
    records: &mut Vec<DiscoveryRecord>,
    depth: usize,
) -> (r: Result<(), Diagnostic>)
    requires
        depth <= 129,
    ensures
        match nested_projection(model@, nested_view(nested@), start as nat, depth as nat, old(records)@.len()) {
            Ok(added) => r is Ok && records_view(final(records)@) == records_view(old(records)@) + added,
            Err(code) => r matches Err(d) && d.code@ == code && d.class == projection_class(code),
        },
    decreases depth_measure(depth as nat), nested@.len() - start + 1,
{
    if start >= nested.len() {
        assert(records_view(records@) + Seq::<RecordView>::empty() =~= records_view(records@));
        return Ok(());
    }
    let ghost initial = records@;
    let ghost item = nested_view(nested@)[start as int];
    let entry = &nested[start];
    match &entry.0 {
        Some(record) => {
            records.push(copy_record(record));
        },
        None => {},
    }
    let ghost lead = match item.0 {
        Some(record) => seq![record],
        None => Seq::<RecordView>::empty(),
    };
    let ghost pushed = records@;
    proof {
        assert(records_view(pushed) =~= records_view(initial) + lead);
    }
    match append_type(model, entry.1.as_str(), entry.2, records, depth) {
        Ok(()) => {},
        Err(d) => {
            return Err(d);
        },
    }
    let ghost typed = records@;
    let r = append_nested(model, nested, start + 1, records, depth);
    proof {
        if let Ok(inner) = type_projection(model@, item.1, item.2, depth as nat, initial.len() + lead.len()) {
            if let Ok(rest) = nested_projection(model@, nested_view(nested@), start as nat + 1, depth as nat, initial.len() + lead.len() + inner.len()) {
                assert(records_view(typed) == records_view(pushed) + inner);
                assert(records_view(initial) + lead + inner + rest =~= records_view(initial) + (lead + inner + rest));
            }
        }
    }
    r
}

} // verus!
