use hipdf::contents::{flatten, ContentSource};

#[test]
fn a_stream_is_taken_as_is() {
    assert_eq!(flatten(&ContentSource::Stream(b"0 0 m".to_vec())), b"0 0 m".to_vec());
}

#[test]
fn array_parts_are_joined_with_newlines() {
    let c = ContentSource::Array(vec![
        ContentSource::Stream(b"q".to_vec()),
        ContentSource::Unreadable,
        ContentSource::Stream(b"Q".to_vec()),
    ]);
    assert_eq!(flatten(&c), b"q\n\nQ\n".to_vec());
}

#[test]
fn nested_arrays_and_unreadable_content() {
    let c = ContentSource::Array(vec![
        ContentSource::Array(vec![ContentSource::Stream(b"a".to_vec())]),
        ContentSource::Stream(b"b".to_vec()),
    ]);
    assert_eq!(flatten(&c), b"a\n\nb\n".to_vec());
    assert!(flatten(&ContentSource::Unreadable).is_empty());
    assert!(flatten(&ContentSource::Array(vec![])).is_empty());
}
