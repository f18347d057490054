use promptr::editor::{
    outcome_of, validate_editor_argv, BuiltinTextProvider, EditRequest, EditTarget, EditorError,
    EditorOutcome, PreparedEdit, TextProvider,
};

fn request(text: &str) -> EditRequest {
    EditRequest {
        target: EditTarget { node_id: None, base_revision: None },
        original_text: text.to_owned(),
    }
}

#[test]
fn saved_content_round_trips_without_normalization() {
    let expected = "雪\r\n\0prompt\n".to_owned();
    let saved = expected.clone();
    let mut provider = BuiltinTextProvider::new(move |initial: &str| {
        assert_eq!(initial, "original");
        Ok(Some(saved.clone()))
    });

    let outcome = provider.edit(request("original")).unwrap();

    let EditorOutcome::Save(edit) = outcome else { panic!("expected save") };
    assert_eq!(edit.original_text, "original");
    assert_eq!(edit.edited_text, expected);
}

#[test]
fn cancellation_never_constructs_a_prepared_edit() {
    let mut provider = BuiltinTextProvider::new(|_: &str| Ok(None));
    assert_eq!(provider.edit(request("draft")).unwrap(), EditorOutcome::Cancel);
}

#[test]
fn host_failure_is_passed_through() {
    let mut provider =
        BuiltinTextProvider::new(|_: &str| Err(EditorError::ExternalFailure { code: Some(3) }));
    assert_eq!(
        provider.edit(request("x")).unwrap_err(),
        EditorError::ExternalFailure { code: Some(3) }
    );
}

#[test]
fn outcome_keeps_the_request_identity() {
    let target = EditTarget {
        node_id: Some(promptr::domain::NodeId::new(4).unwrap()),
        base_revision: Some(promptr::domain::Revision::new(7).unwrap()),
    };
    let req = EditRequest { target, original_text: "before".to_owned() };
    let outcome = outcome_of(req.clone(), Ok(Some("after".to_owned()))).unwrap();
    assert_eq!(
        outcome,
        EditorOutcome::Save(PreparedEdit {
            target,
            original_text: "before".to_owned(),
            edited_text: "after".to_owned(),
        })
    );
}

#[test]
fn rejects_missing_or_repeated_placeholder() {
    assert!(matches!(
        validate_editor_argv(&["editor".to_string()]),
        Err(EditorError::InvalidFilePlaceholder { found: 0 })
    ));
    assert!(matches!(
        validate_editor_argv(&["editor".to_string(), "{file}".to_string(), "{file}".to_string()]),
        Err(EditorError::InvalidFilePlaceholder { found: 2 })
    ));
    assert_eq!(validate_editor_argv(&[]), Err(EditorError::EmptyCommand));
    assert!(validate_editor_argv(&["code".to_string(), "--wait".to_string(), "{file}".to_string()]).is_ok());
    assert!(matches!(
        validate_editor_argv(&["editor".to_string(), "x{file}".to_string()]),
        Err(EditorError::InvalidFilePlaceholder { found: 0 })
    ));
}

#[test]
fn placeholder_is_replaced_as_one_typed_argument() {
    let argv: Vec<String> = vec!["editor".into(), "--wait".into(), "{file}".into()];
    assert!(promptr::editor::validate_editor_argv(&argv).is_ok());
    let path = "a path/draft.txt";
    let args: Vec<String> = promptr::editor::editor_arguments(&argv)
        .into_iter()
        .map(|a| a.unwrap_or_else(|| path.to_string()))
        .collect();
    assert_eq!(args, vec!["--wait".to_string(), "a path/draft.txt".to_string()]);
}

#[test]
fn editor_arguments_keep_look_alike_placeholders() {
    let argv: Vec<String> = vec!["ed".into(), "{file}x".into(), "{FILE}".into(), "{file}".into()];
    let args = promptr::editor::editor_arguments(&argv);
    assert_eq!(args, vec![Some("{file}x".to_string()), Some("{FILE}".to_string()), None]);
}
