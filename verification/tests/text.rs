use crabtrap::text::chars_of;

#[test]
fn characters_come_in_their_order() {
    assert_eq!(chars_of(""), Vec::<char>::new());
    assert_eq!(chars_of("a/[\n"), vec!['a', '/', '[', '\n']);
    assert_eq!(chars_of("é-٣\r"), vec!['é', '-', '٣', '\r']);
}
