use promptr::domain::{DomainError, Metadata, NodeId, Revision, Symbol, Tag, XmlText};

#[test]
fn symbol_rule_is_exact() {
    for valid in ["A", "_", "tool_call", "Agent-Legible", "cpp23"] {
        assert!(Symbol::new(valid).is_ok());
    }
    for invalid in ["", "1A", "foo.bar", "foo:bar", "hello world", "é"] {
        assert!(Symbol::new(invalid).is_err());
    }
}

#[test]
fn xml_character_boundaries() {
    assert!(XmlText::new("\t\n\r <&> \u{D7FF}\u{E000}\u{FFFD}\u{10000}").is_ok());
    for invalid in ['\0', '\u{8}', '\u{B}', '\u{1F}'] {
        assert!(XmlText::new(&invalid.to_string()).is_err());
    }
}

#[test]
fn invalid_xml_character_reports_its_byte_offset() {
    assert_eq!(
        XmlText::new("é\u{1}").unwrap_err(),
        DomainError::InvalidXmlCharacter { character: '\u{1}', byte_offset: 2 }
    );
}

#[test]
fn positive_integers_are_enforced() {
    assert!(NodeId::new(0).is_err());
    assert!(NodeId::new(-1).is_err());
    assert_eq!(NodeId::new(1).unwrap().get(), 1);
    assert!(Revision::new(0).is_err());
    assert_eq!(Revision::new(1).unwrap().get(), 1);
    assert_eq!(Revision::new(1).unwrap().checked_next().unwrap().get(), 2);
    assert!(Revision::new(u64::MAX).unwrap().checked_next().is_none());
}

#[test]
fn metadata_tags_are_a_sorted_set_and_empty_description_clears() {
    let tags = vec![Tag::new("b").unwrap(), Tag::new("a").unwrap(), Tag::new("b").unwrap()];
    let mut metadata = Metadata::new(Some(String::new()), tags);
    assert_eq!(metadata.description(), None);
    let names: Vec<&str> = metadata.tags().iter().map(|t| t.as_str()).collect();
    assert_eq!(names, vec!["a", "b"]);
    metadata.set_description(Some("  ".to_string()));
    assert_eq!(metadata.description(), Some("  "));
    metadata.set_description(Some("text".to_string()));
    assert_eq!(metadata.description(), Some("text"));
    metadata.set_tags(vec![Tag::new("z").unwrap()]);
    assert_eq!(metadata.tags().len(), 1);
    assert_eq!(Tag::new(" \t").unwrap_err(), DomainError::EmptyTag);
}
