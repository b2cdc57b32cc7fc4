use meow::error::{err, StorageError};
use meow::gateway::{index, paste_response};

#[test]
fn index_names_the_base_url() {
    assert_eq!(
        index("https://example.test"),
        "meow - paste bin\nusage: curl --data-binary @<file> https://example.test\n"
    );
}

#[test]
fn paste_response_is_the_address_and_a_newline() {
    assert_eq!(
        paste_response("https://example.test", "abandon-ability"),
        "https://example.test/abandon-ability\n"
    );
    assert_eq!(
        paste_response("https://example.test/", "able-about"),
        "https://example.test/able-about\n"
    );
}

#[test]
fn paste_response_keeps_the_base_path() {
    assert_eq!(
        paste_response("https://example.test/pastes", "able"),
        "https://example.test/pastes/able\n"
    );
    assert_eq!(
        paste_response("https://example.test/pastes//", "able"),
        "https://example.test/pastes/able\n"
    );
}

#[test]
fn err_is_a_transport_error() {
    assert_eq!(err("broken pipe".to_string()), StorageError::Transport("broken pipe".to_string()));
}
