use lkjscript_platform::digest::ObjectDigest;
use lkjscript_platform::kernel::PackageId;
use lkjscript_platform::projection::{append_type, DiscoveryRecord, InterfaceModel, StructuralField, TypeForm};
use lkjscript_platform::text::{decimal, exceeded_message, unsupported_message};

fn digest(word: u64) -> ObjectDigest {
    ObjectDigest { w0: word, w1: 0, w2: 0, w3: 0 }
}

fn fields(record: &DiscoveryRecord) -> Vec<(&str, &str)> {
    record.fields.iter().map(|(name, value)| (name.as_str(), value.as_str())).collect()
}

fn model() -> InterfaceModel {
    InterfaceModel {
        types: vec![
            (digest(1), TypeForm::Bytes),
            (digest(2), TypeForm::List { item: digest(1) }),
            (
                digest(3),
                TypeForm::StructuralRecord {
                    fields: vec![
                        StructuralField { name: "chunk".to_string(), ty: digest(1) },
                        StructuralField { name: "rest".to_string(), ty: digest(2) },
                    ],
                },
            ),
            (digest(4), TypeForm::Named { package: PackageId(7), declaration: 12 }),
            (digest(5), TypeForm::Function { parameters: vec![digest(4)], result: digest(3) }),
            (digest(6), TypeForm::List { item: digest(6) }),
        ],
    }
}

#[test]
fn structural_types_project_depth_first() {
    let mut records = Vec::new();
    append_type(&model(), "result", digest(3), &mut records, 0).expect("projection");
    let operations: Vec<&str> = records.iter().map(|record| record.operation.as_str()).collect();
    assert_eq!(operations, vec!["type", "type.field", "type", "type.field", "type", "type"]);
    let digest_text = "03".to_string() + &"00".repeat(31);
    assert_eq!(
        fields(&records[0]),
        vec![("path", "result"), ("digest", &("03".to_string() + &"00".repeat(31))[..]), ("form", "structural-record"), ("fields", "2")]
    );
    assert_eq!(
        fields(&records[1]),
        vec![("parent", "result"), ("index", "0"), ("name", "chunk"), ("type-path", "result.chunk")]
    );
    assert_eq!(fields(&records[2])[0], ("path", "result.chunk"));
    assert_eq!(fields(&records[5])[0], ("path", "result.rest.item"));
    assert_eq!(fields(&records[5])[2], ("form", "bytes"));
    assert_ne!(digest_text, "");
}

#[test]
fn function_types_project_parameters_then_result() {
    let mut records = Vec::new();
    append_type(&model(), "function", digest(5), &mut records, 0).expect("projection");
    assert_eq!(fields(&records[0])[3], ("parameters", "1"));
    assert_eq!(fields(&records[1])[0], ("path", "function.parameter.0"));
    assert_eq!(fields(&records[1])[3], ("reference", "7/12"));
    assert_eq!(fields(&records[2])[0], ("path", "function.result"));
}

#[test]
fn projection_bounds_and_missing_types_are_refused() {
    let mut records = Vec::new();
    let refused = append_type(&model(), "loop", digest(6), &mut records, 0).unwrap_err();
    assert_eq!(refused.code, "builtin_type_projection_limit");
    assert_eq!(records.len(), 129);
    let mut records = Vec::new();
    let refused = append_type(&model(), "deep", digest(1), &mut records, 129).unwrap_err();
    assert_eq!(refused.code, "builtin_type_projection_limit");
    assert!(records.is_empty());
    let mut records = Vec::new();
    let refused = append_type(&model(), "missing", digest(9), &mut records, 0).unwrap_err();
    assert_eq!(refused.code, "builtin_interface_type");
}

#[test]
fn decimal_text_and_messages_are_exact() {
    assert_eq!(decimal(0), "0");
    assert_eq!(decimal(1234567890), "1234567890");
    assert_eq!(decimal(u64::MAX), u64::MAX.to_string());
    assert_eq!(
        exceeded_message("normalization", 12, "point reads", 10),
        "normalization requires 12 point reads, exceeding the declared maximum 10"
    );
    assert_eq!(unsupported_message("canonical owner"), "canonical owner source does not implement pre-consumption read admission");
}
