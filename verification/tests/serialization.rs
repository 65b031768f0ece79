use telepathy::CustomSerializationError;

#[test]
fn serialization_error_describes_itself() {
    assert_eq!(
        CustomSerializationError.message(),
        "An error occurred during the custom (de)serialization"
    );
}
