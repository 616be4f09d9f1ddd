use shtml_extraction::paragraphs::{ParagraphKind, UloClass};

#[test]
fn from_shtml_reads_the_five_announced_kinds() {
    assert_eq!(ParagraphKind::from_shtml("shtml:definition"), Some(ParagraphKind::Definition));
    assert_eq!(ParagraphKind::from_shtml("shtml:assertion"), Some(ParagraphKind::Assertion));
    assert_eq!(ParagraphKind::from_shtml("shtml:paragraph"), Some(ParagraphKind::Paragraph));
    assert_eq!(ParagraphKind::from_shtml("shtml:proof"), Some(ParagraphKind::Proof));
    assert_eq!(ParagraphKind::from_shtml("shtml:subproof"), Some(ParagraphKind::SubProof));
    assert_eq!(ParagraphKind::from_shtml("shtml:example"), None);
    assert_eq!(ParagraphKind::from_shtml("definition"), None);
}

#[test]
fn definition_like_by_kind_or_by_style() {
    let none: Vec<Vec<u8>> = Vec::new();
    assert!(ParagraphKind::Definition.is_definition_like(&none));
    assert!(ParagraphKind::Assertion.is_definition_like(&none));
    assert!(!ParagraphKind::Paragraph.is_definition_like(&none));
    assert!(ParagraphKind::Paragraph.is_definition_like(&[b"wide".to_vec(), b"symdoc".to_vec()]));
    assert!(ParagraphKind::Example.is_definition_like(&[b"decl".to_vec()]));
    assert!(!ParagraphKind::Proof.is_definition_like(&[b"declared".to_vec()]));
}

#[test]
fn names_and_classes_of_kinds() {
    assert_eq!(ParagraphKind::SubProof.as_str(), "subproof");
    assert_eq!(ParagraphKind::SubProof.to_string(), "Subproof");
    assert_eq!(ParagraphKind::Assertion.rdf_type(), UloClass::Proposition);
    assert_eq!(ParagraphKind::Paragraph.rdf_type().iri(), "http://mathhub.info/ulo#para");
}
