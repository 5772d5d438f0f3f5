use medoxido::error::Error;

#[test]
fn status_codes_match_error_kinds() {
    assert_eq!(Error::Unauthorized.status_code(), 401);
    assert_eq!(Error::Forbidden.status_code(), 403);
    assert_eq!(Error::NotFound.status_code(), 404);
    assert_eq!(
        Error::UnprocessableEntity { errors: Vec::new() }.status_code(),
        422
    );
    assert_eq!(Error::Db.status_code(), 500);
}

#[test]
fn messages_match_error_kinds() {
    assert_eq!(Error::Unauthorized.message(), "authentication required");
    assert_eq!(Error::Db.message(), "an internal server error occurred");
    assert_eq!(
        Error::UnprocessableEntity { errors: Vec::new() }.message(),
        "error in the request body"
    );
}

#[test]
fn unprocessable_entity_groups_messages_by_field() {
    let pairs = vec![
        (String::from("name"), String::from("too short")),
        (String::from("name"), String::from("contains profanity")),
        (String::from("quantity"), String::from("missing")),
    ];
    let e = Error::unprocessable_entity(pairs);
    match e {
        Error::UnprocessableEntity { errors } => {
            assert_eq!(errors.len(), 2);
            assert_eq!(errors[0].0, "name");
            assert_eq!(
                errors[0].1,
                vec![
                    String::from("too short"),
                    String::from("contains profanity")
                ]
            );
            assert_eq!(errors[1].0, "quantity");
            assert_eq!(errors[1].1, vec![String::from("missing")]);
        }
        other => panic!("expected a validation error, got {:?}", other),
    }
}

#[test]
fn unprocessable_entity_of_no_pairs_is_empty() {
    let e = Error::unprocessable_entity(Vec::new());
    match e {
        Error::UnprocessableEntity { errors } => assert!(errors.is_empty()),
        other => panic!("expected a validation error, got {:?}", other),
    }
}
