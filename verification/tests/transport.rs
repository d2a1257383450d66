use quadtree::transport::encoded_or_empty;

#[test]
fn encoded_text_is_handed_on_unchanged() {
    let encoded: Result<String, ()> = Ok(String::from("[{\"x\":1,\"y\":2}]"));
    assert_eq!(encoded_or_empty(encoded), "[{\"x\":1,\"y\":2}]");
}

#[test]
fn encoded_empty_text_is_handed_on_unchanged() {
    let encoded: Result<String, ()> = Ok(String::new());
    assert_eq!(encoded_or_empty(encoded), "");
}

#[test]
fn failed_encoding_gives_an_empty_list() {
    let encoded: Result<String, String> = Err(String::from("recursion limit exceeded"));
    assert_eq!(encoded_or_empty(encoded), "[]");
}
