use lkjscript_platform::artifact::{
    bytes_less, check_bundle_objects, validate_bundle_shape, ArtifactBundle, ArtifactObject, BundleEntry,
    ARTIFACT_CONTRACT_VERSION,
};
use lkjscript_platform::digest::ObjectDigest;

fn object(bytes: &[u8]) -> ArtifactObject {
    ArtifactObject { digest: ObjectDigest::of(bytes), bytes: bytes.to_vec() }
}

fn sorted(mut objects: Vec<ArtifactObject>) -> Vec<ArtifactObject> {
    objects.sort_by(|a, b| {
        let left = [a.digest.w0.to_le_bytes(), a.digest.w1.to_le_bytes(), a.digest.w2.to_le_bytes(), a.digest.w3.to_le_bytes()].concat();
        let right = [b.digest.w0.to_le_bytes(), b.digest.w1.to_le_bytes(), b.digest.w2.to_le_bytes(), b.digest.w3.to_le_bytes()].concat();
        left.cmp(&right).then(a.bytes.cmp(&b.bytes))
    });
    objects
}

#[test]
fn byte_order_is_lexicographic() {
    assert!(bytes_less(&[1, 2], &[1, 3]));
    assert!(bytes_less(&[1], &[1, 0]));
    assert!(!bytes_less(&[2], &[1, 9]));
    assert!(!bytes_less(&[4, 4], &[4, 4]));
}

#[test]
fn bundle_shape_accepts_a_canonical_bundle_and_refuses_each_fault() {
    let objects = sorted(vec![object(b"alpha"), object(b"beta")]);
    let root = objects[0].digest;
    let bundle = ArtifactBundle { contract_version: ARTIFACT_CONTRACT_VERSION, root, objects: objects.clone() };
    assert!(validate_bundle_shape(&bundle).is_ok());

    let stale = ArtifactBundle { contract_version: 3, ..bundle.clone() };
    assert_eq!(validate_bundle_shape(&stale).unwrap_err().code, "artifact_contract");
    let empty = ArtifactBundle { objects: Vec::new(), ..bundle.clone() };
    assert_eq!(validate_bundle_shape(&empty).unwrap_err().code, "artifact_package_count");
    let reversed = ArtifactBundle { objects: vec![objects[1].clone(), objects[0].clone()], ..bundle.clone() };
    assert_eq!(validate_bundle_shape(&reversed).unwrap_err().code, "artifact_object_order");
    let rootless = ArtifactBundle { root: ObjectDigest::of(b"gamma"), ..bundle.clone() };
    assert_eq!(validate_bundle_shape(&rootless).unwrap_err().code, "artifact_root_missing");
    let mut forged = objects.clone();
    forged[1].bytes.push(0);
    let forged = ArtifactBundle { objects: forged, ..bundle };
    assert_eq!(validate_bundle_shape(&forged).unwrap_err().code, "artifact_object_digest");
}

fn entry(bytes: &[u8], dependencies: Vec<ObjectDigest>) -> BundleEntry {
    BundleEntry { digest: ObjectDigest::of(bytes), bytes: bytes.to_vec(), dependencies }
}

#[test]
fn bundle_objects_must_be_the_root_closure() {
    let leaf = entry(b"leaf", Vec::new());
    let root = entry(b"root", vec![leaf.digest]);
    assert!(check_bundle_objects(root.digest, &vec![root.clone(), leaf.clone()]).is_ok());

    let stray = entry(b"stray", Vec::new());
    assert_eq!(
        check_bundle_objects(root.digest, &vec![root.clone(), leaf.clone(), stray]).unwrap_err().code,
        "artifact_object_foreign"
    );
    assert_eq!(
        check_bundle_objects(root.digest, &vec![root.clone()]).unwrap_err().code,
        "artifact_dependency_missing"
    );
    assert_eq!(
        check_bundle_objects(root.digest, &vec![root.clone(), leaf.clone(), leaf.clone()]).unwrap_err().code,
        "artifact_object_duplicate"
    );
    let mut forged = leaf.clone();
    forged.bytes.push(1);
    assert_eq!(
        check_bundle_objects(root.digest, &vec![root, forged]).unwrap_err().code,
        "artifact_object_digest"
    );
}

#[test]
fn cyclic_package_dependencies_are_refused() {
    let leaf = entry(b"leaf", Vec::new());
    let a_digest = ObjectDigest::of(b"a");
    let b = entry(b"b", vec![a_digest, leaf.digest]);
    let a = BundleEntry { digest: a_digest, bytes: b"a".to_vec(), dependencies: vec![b.digest] };
    assert_eq!(
        check_bundle_objects(a.digest, &vec![a.clone(), b.clone(), leaf.clone()]).unwrap_err().code,
        "artifact_dependency_cycle"
    );
    let self_loop = BundleEntry { digest: leaf.digest, bytes: b"leaf".to_vec(), dependencies: vec![leaf.digest] };
    assert_eq!(check_bundle_objects(leaf.digest, &vec![self_loop]).unwrap_err().code, "artifact_dependency_cycle");
    let middle = entry(b"middle", vec![leaf.digest]);
    let top = entry(b"top", vec![middle.digest, leaf.digest]);
    assert!(check_bundle_objects(top.digest, &vec![leaf, top.clone(), middle]).is_ok());
}
