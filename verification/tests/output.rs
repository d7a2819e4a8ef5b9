use kbc_core::output::split_text_into_chunks;

#[test]
fn splits_an_overlong_line_without_losing_text() {
    let text = "x".repeat(3_701);
    let chunks = split_text_into_chunks(&text, 1_800);

    assert_eq!(
        chunks.iter().map(String::len).collect::<Vec<_>>(),
        [1_800, 1_800, 101]
    );
    assert_eq!(chunks.concat(), text);
}

#[test]
fn keeps_lines_together_until_the_limit() {
    let chunks = split_text_into_chunks("ab\ncd\nef", 5);
    assert_eq!(chunks, vec!["ab\ncd".to_owned(), "ef".to_owned()]);
}

#[test]
fn drops_empty_lines_at_chunk_start_and_cuts_long_lines() {
    let chunks = split_text_into_chunks("\n\nabcdefg\nhi", 3);
    assert_eq!(
        chunks,
        vec!["abc".to_owned(), "def".to_owned(), "g".to_owned(), "hi".to_owned()]
    );
}

#[test]
fn counts_utf16_units_for_astral_characters() {
    let chunks = split_text_into_chunks("😀😀😀", 4);
    assert_eq!(chunks, vec!["😀😀".to_owned(), "😀".to_owned()]);
}

#[test]
fn empty_text_gives_no_chunks() {
    assert!(split_text_into_chunks("", 10).is_empty());
}

#[test]
fn chunks_keep_every_character_but_line_feeds() {
    let text = format!("{}\nshort\n\n{}", "a".repeat(2500), "b".repeat(40));
    let chunks = kbc_core::output::split_text_into_chunks(&text, 1800);
    let joined: String = chunks.concat().chars().filter(|c| *c != '\n').collect();
    let expected: String = text.chars().filter(|c| *c != '\n').collect();
    assert_eq!(joined, expected);
    assert!(chunks.iter().all(|c| c.encode_utf16().count() <= 1800));
}

#[test]
fn chunks_joined_give_back_a_text_whose_lines_fit() {
    let text = format!("{}\n{}\n{}", "a".repeat(1000), "b".repeat(900), "c".repeat(10));
    let chunks = kbc_core::output::split_text_into_chunks(&text, 1800);
    assert_eq!(chunks.len(), 2);
    assert_eq!(chunks.join("\n"), text);
}
