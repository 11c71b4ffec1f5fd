//! Canonical semantic records, as plain values, and their exact canonical encodings.

use crate::digest::{blake3_digest, ObjectDigest};
use vstd::bytes::{spec_u64_to_le_bytes, u64_to_le_bytes};
use vstd::prelude::*;

verus! {

/// Identity of a repository.
#[derive(Clone, Copy, Debug, PartialEq, Eq, Structural)]
pub struct RepositoryId(pub u64);

/// Identity of a package.
#[derive(Clone, Copy, Debug, PartialEq, Eq, Structural)]
pub struct PackageId(pub u64);

/// Identity of one accepted revision.
#[derive(Clone, Copy, Debug, PartialEq, Eq, Structural)]
pub struct RevisionId(pub u64);

/// Key of one owner in a package's owner map.
#[derive(Clone, Copy, Debug, PartialEq, Eq, Structural)]
pub enum OwnerKey {
    Module(u64),
    Declaration(u64),
    Target(u64),
    Member(u64),
}

/// The kind of an owner record.
#[derive(Clone, Copy, Debug, PartialEq, Eq, Structural)]
pub enum OwnerKind {
    Module,
    Documentation,
    Annotation,
    Port,
    Target,
    Test,
    Record,
    Variant,
    Interface,
    External,
    PureFunction,
    TaskFunction,
    Constant,
    Component,
    TypeParameter,
    Field,
    Case,
    Operation,
    Parameter,
    Requirement,
}

/// One accepted owner: its key, its kind and its canonical content.
#[derive(Clone, Copy, Debug, PartialEq, Eq, Structural)]
pub struct OwnerRecord {
    pub owner: OwnerKey,
    pub kind: OwnerKind,
    pub content: u64,
}

impl OwnerRecord {
    pub fn owner(&self) -> (r: OwnerKey)
        ensures
            r == self.owner,
    {
        self.owner
    }

    pub fn kind(&self) -> (r: OwnerKind)
        ensures
            r == self.kind,
    {
        self.kind
    }
}

/// Digest of an encoded owner record.
pub type OwnerObjectDigest = ObjectDigest;

/// Digest of an encoded type object.
pub type TypeObjectDigest = ObjectDigest;

/// Digest of an encoded dependency record.
pub type DependencyObjectDigest = ObjectDigest;

/// Digest of an encoded retirement record.
pub type RetirementObjectDigest = ObjectDigest;

/// Digest of an exact dependency package revision.
pub type PackageRevisionDigest = ObjectDigest;

/// One canonical type object.
#[derive(Clone, Copy, Debug, PartialEq, Eq, Structural)]
pub struct TypeObject {
    pub form: u8,
    pub content: u64,
}

/// One package dependency binding.
#[derive(Clone, Copy, Debug, PartialEq, Eq, Structural)]
pub struct DependencyRecord {
    pub package: PackageId,
    pub package_revision: PackageRevisionDigest,
    pub content: u64,
}

/// One retirement binding of an owner that left the live owner map.
#[derive(Clone, Copy, Debug, PartialEq, Eq, Structural)]
pub struct RetirementRecord {
    pub owner: OwnerKey,
    pub content: u64,
}

/// One owner of a dependency package's public interface.
#[derive(Clone, Copy, Debug, PartialEq, Eq, Structural)]
pub struct PackageInterfaceRecord {
    pub owner: OwnerKey,
    pub kind: OwnerKind,
    pub content: u64,
}

/// The root of one package's semantic authority with its map entry counts.
#[derive(Clone, Copy, Debug, PartialEq, Eq, Structural)]
pub struct SemanticRoot {
    pub repository_id: RepositoryId,
    pub package_id: PackageId,
    pub owners: u64,
    pub dependencies: u64,
    pub retirements: u64,
}

/// The one-byte tag of an owner key's form.
pub open spec fn owner_key_tag(key: OwnerKey) -> u8 {
    match key {
        OwnerKey::Module(_) => 0,
        OwnerKey::Declaration(_) => 1,
        OwnerKey::Target(_) => 2,
        OwnerKey::Member(_) => 3,
    }
}

/// The numeric identity inside an owner key.
pub open spec fn owner_key_id(key: OwnerKey) -> u64 {
    match key {
        OwnerKey::Module(id) => id,
        OwnerKey::Declaration(id) => id,
        OwnerKey::Target(id) => id,
        OwnerKey::Member(id) => id,
    }
}

/// The canonical bytes of an owner key: its tag, then its identity in little-endian order.
pub open spec fn owner_key_bytes(key: OwnerKey) -> Seq<u8> {
    seq![owner_key_tag(key)] + spec_u64_to_le_bytes(owner_key_id(key))
}

/// The canonical bytes of an owner kind.
pub open spec fn owner_kind_index(kind: OwnerKind) -> u8 {
    match kind {
        OwnerKind::Module => 0,
        OwnerKind::Documentation => 1,
        OwnerKind::Annotation => 2,
        OwnerKind::Port => 3,
        OwnerKind::Target => 4,
        OwnerKind::Test => 5,
        OwnerKind::Record => 6,
        OwnerKind::Variant => 7,
        OwnerKind::Interface => 8,
        OwnerKind::External => 9,
        OwnerKind::PureFunction => 10,
        OwnerKind::TaskFunction => 11,
        OwnerKind::Constant => 12,
        OwnerKind::Component => 13,
        OwnerKind::TypeParameter => 14,
        OwnerKind::Field => 15,
        OwnerKind::Case => 16,
        OwnerKind::Operation => 17,
        OwnerKind::Parameter => 18,
        OwnerKind::Requirement => 19,
    }
}

/// The canonical bytes of an owner record.
pub open spec fn owner_bytes(record: OwnerRecord) -> Seq<u8> {
    owner_key_bytes(record.owner) + seq![owner_kind_index(record.kind)] + spec_u64_to_le_bytes(record.content)
}

/// The canonical bytes of a type object.
pub open spec fn type_object_bytes(object: TypeObject) -> Seq<u8> {
    seq![object.form] + spec_u64_to_le_bytes(object.content)
}

/// The canonical bytes of an object digest.
pub open spec fn digest_bytes(digest: ObjectDigest) -> Seq<u8> {
    spec_u64_to_le_bytes(digest.w0) + spec_u64_to_le_bytes(digest.w1) + spec_u64_to_le_bytes(digest.w2)
        + spec_u64_to_le_bytes(digest.w3)
}

/// The canonical bytes of a dependency record.
pub open spec fn dependency_bytes(record: DependencyRecord) -> Seq<u8> {
    spec_u64_to_le_bytes(record.package.0) + digest_bytes(record.package_revision) + spec_u64_to_le_bytes(record.content)
}

/// The canonical bytes of a retirement record.
pub open spec fn retirement_bytes(record: RetirementRecord) -> Seq<u8> {
    owner_key_bytes(record.owner) + spec_u64_to_le_bytes(record.content)
}

/// The digest that identifies a canonical encoding.
pub open spec fn digest_of(bytes: Seq<u8>) -> ObjectDigest {
    ObjectDigest::from_bytes(blake3_digest(bytes))
}

/// The one-byte tag of an owner key's form.
pub fn owner_key_tag_of(key: OwnerKey) -> (r: u8)
    ensures
        r == owner_key_tag(key),
{
    match key {
        OwnerKey::Module(_) => 0,
        OwnerKey::Declaration(_) => 1,
        OwnerKey::Target(_) => 2,
        OwnerKey::Member(_) => 3,
    }
}

/// The numeric identity inside an owner key.
pub fn owner_key_id_of(key: OwnerKey) -> (r: u64)
    ensures
        r == owner_key_id(key),
{
    match key {
        OwnerKey::Module(id) => id,
        OwnerKey::Declaration(id) => id,
        OwnerKey::Target(id) => id,
        OwnerKey::Member(id) => id,
    }
}

/// The canonical byte of an owner kind.
pub fn owner_kind_index_of(kind: OwnerKind) -> (r: u8)
    ensures
        r == owner_kind_index(kind),
{
    match kind {
        OwnerKind::Module => 0,
        OwnerKind::Documentation => 1,
        OwnerKind::Annotation => 2,
        OwnerKind::Port => 3,
        OwnerKind::Target => 4,
        OwnerKind::Test => 5,
        OwnerKind::Record => 6,
        OwnerKind::Variant => 7,
        OwnerKind::Interface => 8,
        OwnerKind::External => 9,
        OwnerKind::PureFunction => 10,
        OwnerKind::TaskFunction => 11,
        OwnerKind::Constant => 12,
        OwnerKind::Component => 13,
        OwnerKind::TypeParameter => 14,
        OwnerKind::Field => 15,
        OwnerKind::Case => 16,
        OwnerKind::Operation => 17,
        OwnerKind::Parameter => 18,
        OwnerKind::Requirement => 19,
    }
}

/// Appends the little-endian bytes of `value`.
pub(crate) fn push_u64(bytes: &mut Vec<u8>, value: u64)
    ensures
        final(bytes)@ == old(bytes)@ + spec_u64_to_le_bytes(value),
{
    let mut encoded = u64_to_le_bytes(value);
    bytes.append(&mut encoded);
}

/// Appends the canonical bytes of an owner key.
pub(crate) fn push_owner_key(bytes: &mut Vec<u8>, key: OwnerKey)
    ensures
        final(bytes)@ == old(bytes)@ + owner_key_bytes(key),
{
    bytes.push(owner_key_tag_of(key));
    push_u64(bytes, owner_key_id_of(key));
    assert(final(bytes)@ =~= old(bytes)@ + owner_key_bytes(key));
}

/// Encodes an owner record and returns its digest with its canonical bytes.
pub fn encode_owner(record: &OwnerRecord) -> (r: (OwnerObjectDigest, Vec<u8>))
    ensures
        r.1@ == owner_bytes(*record),
        r.0 == digest_of(owner_bytes(*record)),
{
    let mut bytes: Vec<u8> = Vec::new();
    push_owner_key(&mut bytes, record.owner);
    bytes.push(owner_kind_index_of(record.kind));
    push_u64(&mut bytes, record.content);
    assert(bytes@ =~= owner_bytes(*record));
    (ObjectDigest::of(bytes.as_slice()), bytes)
}

/// Encodes a type object and returns its digest with its canonical bytes.
pub fn encode_type_object(object: &TypeObject) -> (r: (TypeObjectDigest, Vec<u8>))
    ensures
        r.1@ == type_object_bytes(*object),
        r.0 == digest_of(type_object_bytes(*object)),
{
    let mut bytes: Vec<u8> = Vec::new();
    bytes.push(object.form);
    push_u64(&mut bytes, object.content);
    assert(bytes@ =~= type_object_bytes(*object));
    (ObjectDigest::of(bytes.as_slice()), bytes)
}

/// Encodes a dependency record and returns its digest with its canonical bytes.
pub fn encode_dependency(record: &DependencyRecord) -> (r: (DependencyObjectDigest, Vec<u8>))
    ensures
        r.1@ == dependency_bytes(*record),
        r.0 == digest_of(dependency_bytes(*record)),
{
    let mut bytes: Vec<u8> = Vec::new();
    push_u64(&mut bytes, record.package.0);
    push_u64(&mut bytes, record.package_revision.w0);
    push_u64(&mut bytes, record.package_revision.w1);
    push_u64(&mut bytes, record.package_revision.w2);
    push_u64(&mut bytes, record.package_revision.w3);
    push_u64(&mut bytes, record.content);
    assert(bytes@ =~= dependency_bytes(*record));
    (ObjectDigest::of(bytes.as_slice()), bytes)
}

/// Encodes a retirement record and returns its digest with its canonical bytes.
pub fn encode_retirement(record: &RetirementRecord) -> (r: (RetirementObjectDigest, Vec<u8>))
    ensures
        r.1@ == retirement_bytes(*record),
        r.0 == digest_of(retirement_bytes(*record)),
{
    let mut bytes: Vec<u8> = Vec::new();
    push_owner_key(&mut bytes, record.owner);
    push_u64(&mut bytes, record.content);
    assert(bytes@ =~= retirement_bytes(*record));
    (ObjectDigest::of(bytes.as_slice()), bytes)
}


/// One package's complete accepted semantic authority, held in memory.
#[derive(Clone, Debug)]
pub struct KernelSnapshot {
    pub root: SemanticRoot,
    pub owners: Vec<OwnerRecord>,
    pub types: Vec<(TypeObjectDigest, TypeObject)>,
    pub dependency_types: Vec<(TypeObjectDigest, TypeObject)>,
    pub dependency_interfaces: Vec<(PackageRevisionDigest, PackageInterfaceRecord)>,
    pub dependencies: Vec<DependencyRecord>,
    pub retirements: Vec<RetirementRecord>,
}

/// A copy of a sequence of plain values.
pub fn copy_entries<T: Copy>(entries: &Vec<T>) -> (r: Vec<T>)
    ensures
        r@ == entries@,
{
    let mut copied: Vec<T> = Vec::new();
    let mut i: usize = 0;
    while i < entries.len()
        invariant
            i <= entries@.len(),
            copied@ == entries@.take(i as int),
        decreases entries@.len() - i,
    {
        copied.push(entries[i]);
        i = i + 1;
        assert(copied@ =~= entries@.take(i as int));
    }
    assert(entries@.take(entries@.len() as int) =~= entries@);
    copied
}

impl KernelSnapshot {
    /// Whether two snapshots hold the same authority.
    pub open spec fn same_contents(&self, other: &KernelSnapshot) -> bool {
        &&& self.root == other.root
        &&& self.owners@ == other.owners@
        &&& self.types@ == other.types@
        &&& self.dependency_types@ == other.dependency_types@
        &&& self.dependency_interfaces@ == other.dependency_interfaces@
        &&& self.dependencies@ == other.dependencies@
        &&& self.retirements@ == other.retirements@
    }

    /// An independent copy of this snapshot.
    pub fn duplicate(&self) -> (r: KernelSnapshot)
        ensures
            r.same_contents(self),
    {
        KernelSnapshot {
            root: self.root,
            owners: copy_entries(&self.owners),
            types: copy_entries(&self.types),
            dependency_types: copy_entries(&self.dependency_types),
            dependency_interfaces: copy_entries(&self.dependency_interfaces),
            dependencies: copy_entries(&self.dependencies),
            retirements: copy_entries(&self.retirements),
        }
    }
}

/// The first owner record with the given key.
pub open spec fn owner_in(owners: Seq<OwnerRecord>, key: OwnerKey) -> Option<OwnerRecord>
    decreases owners.len(),
{
    if owners.len() == 0 {
        None
    } else if owners[0].owner == key {
        Some(owners[0])
    } else {
        owner_in(owners.drop_first(), key)
    }
}

/// The first type object bound to the given digest.
pub open spec fn type_in(types: Seq<(TypeObjectDigest, TypeObject)>, digest: TypeObjectDigest) -> Option<TypeObject>
    decreases types.len(),
{
    if types.len() == 0 {
        None
    } else if types[0].0 == digest {
        Some(types[0].1)
    } else {
        type_in(types.drop_first(), digest)
    }
}

/// The first interface owner of the given package revision with the given key.
pub open spec fn interface_in(
    interfaces: Seq<(PackageRevisionDigest, PackageInterfaceRecord)>,
    revision: PackageRevisionDigest,
    owner: OwnerKey,
) -> Option<PackageInterfaceRecord>
    decreases interfaces.len(),
{
    if interfaces.len() == 0 {
        None
    } else if interfaces[0].0 == revision && interfaces[0].1.owner == owner {
        Some(interfaces[0].1)
    } else {
        interface_in(interfaces.drop_first(), revision, owner)
    }
}

/// The first dependency record of the given package.
pub open spec fn dependency_in(dependencies: Seq<DependencyRecord>, package: PackageId) -> Option<DependencyRecord>
    decreases dependencies.len(),
{
    if dependencies.len() == 0 {
        None
    } else if dependencies[0].package == package {
        Some(dependencies[0])
    } else {
        dependency_in(dependencies.drop_first(), package)
    }
}

/// The first retirement record of the given owner.
pub open spec fn retirement_in(retirements: Seq<RetirementRecord>, owner: OwnerKey) -> Option<RetirementRecord>
    decreases retirements.len(),
{
    if retirements.len() == 0 {
        None
    } else if retirements[0].owner == owner {
        Some(retirements[0])
    } else {
        retirement_in(retirements.drop_first(), owner)
    }
}

/// Looks up the owner record with the given key.
pub fn find_owner(owners: &Vec<OwnerRecord>, key: OwnerKey) -> (r: Option<OwnerRecord>)
    ensures
        r == owner_in(owners@, key),
{
    let mut i: usize = 0;
    assert(owners@.subrange(0, owners@.len() as int) =~= owners@);
    while i < owners.len()
        invariant
            0 <= i <= owners@.len(),
            owner_in(owners@, key) == owner_in(owners@.subrange(i as int, owners@.len() as int), key),
        decreases owners@.len() - i,
    {
        assert(owners@.subrange(i as int, owners@.len() as int).drop_first() =~= owners@.subrange(i + 1, owners@.len() as int));
        if owners[i].owner == key {
            return Some(owners[i]);
        }
        i = i + 1;
    }
    None
}

/// Looks up the type object bound to the given digest.
pub fn find_type(types: &Vec<(TypeObjectDigest, TypeObject)>, digest: TypeObjectDigest) -> (r: Option<TypeObject>)
    ensures
        r == type_in(types@, digest),
{
    let mut i: usize = 0;
    assert(types@.subrange(0, types@.len() as int) =~= types@);
    while i < types.len()
        invariant
            0 <= i <= types@.len(),
            type_in(types@, digest) == type_in(types@.subrange(i as int, types@.len() as int), digest),
        decreases types@.len() - i,
    {
        assert(types@.subrange(i as int, types@.len() as int).drop_first() =~= types@.subrange(i + 1, types@.len() as int));
        if types[i].0 == digest {
            return Some(types[i].1);
        }
        i = i + 1;
    }
    None
}

/// Looks up one interface owner of one dependency package revision.
pub fn find_interface(
    interfaces: &Vec<(PackageRevisionDigest, PackageInterfaceRecord)>,
    revision: PackageRevisionDigest,
    owner: OwnerKey,
) -> (r: Option<PackageInterfaceRecord>)
    ensures
        r == interface_in(interfaces@, revision, owner),
{
    let mut i: usize = 0;
    assert(interfaces@.subrange(0, interfaces@.len() as int) =~= interfaces@);
    while i < interfaces.len()
        invariant
            0 <= i <= interfaces@.len(),
            interface_in(interfaces@, revision, owner) == interface_in(
                interfaces@.subrange(i as int, interfaces@.len() as int),
                revision,
                owner,
            ),
        decreases interfaces@.len() - i,
    {
        assert(interfaces@.subrange(i as int, interfaces@.len() as int).drop_first() =~= interfaces@.subrange(i + 1, interfaces@.len() as int));
        if interfaces[i].0 == revision && interfaces[i].1.owner == owner {
            return Some(interfaces[i].1);
        }
        i = i + 1;
    }
    None
}

/// Looks up the dependency record of the given package.
pub fn find_dependency(dependencies: &Vec<DependencyRecord>, package: PackageId) -> (r: Option<DependencyRecord>)
    ensures
        r == dependency_in(dependencies@, package),
{
    let mut i: usize = 0;
    assert(dependencies@.subrange(0, dependencies@.len() as int) =~= dependencies@);
    while i < dependencies.len()
        invariant
            0 <= i <= dependencies@.len(),
            dependency_in(dependencies@, package) == dependency_in(dependencies@.subrange(i as int, dependencies@.len() as int), package),
        decreases dependencies@.len() - i,
    {
        assert(dependencies@.subrange(i as int, dependencies@.len() as int).drop_first() =~= dependencies@.subrange(i + 1, dependencies@.len() as int));
        if dependencies[i].package == package {
            return Some(dependencies[i]);
        }
        i = i + 1;
    }
    None
}

/// Looks up the retirement record of the given owner.
pub fn find_retirement(retirements: &Vec<RetirementRecord>, owner: OwnerKey) -> (r: Option<RetirementRecord>)
    ensures
        r == retirement_in(retirements@, owner),
{
    let mut i: usize = 0;
    assert(retirements@.subrange(0, retirements@.len() as int) =~= retirements@);
    while i < retirements.len()
        invariant
            0 <= i <= retirements@.len(),
            retirement_in(retirements@, owner) == retirement_in(retirements@.subrange(i as int, retirements@.len() as int), owner),
        decreases retirements@.len() - i,
    {
        assert(retirements@.subrange(i as int, retirements@.len() as int).drop_first() =~= retirements@.subrange(i + 1, retirements@.len() as int));
        if retirements[i].owner == owner {
            return Some(retirements[i]);
        }
        i = i + 1;
    }
    None
}

} // verus!
