#[test]
fn client_must_provide_content_length_or_else_transfer_encoding_is_chunked_if_entity_big() {}
