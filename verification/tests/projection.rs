use comicinfo::{filter_and_combine_tags, language_iso, Tag};

fn tag(category: &str, name: &str) -> Tag {
    Tag { category: category.to_string(), name: name.to_string() }
}

#[test]
fn project_sorts_ascending() {
    let tags = vec![tag("tag", "zebra"), tag("tag", "apple"), tag("tag", "mango")];
    let r = filter_and_combine_tags(&tags, &["tag"], false);
    assert_eq!(r, Some("apple,mango,zebra".to_string()));
}

#[test]
fn project_uses_byte_order() {
    // byte/codepoint order puts every upper-case letter before lower case
    let tags = vec![tag("tag", "apple"), tag("tag", "Zebra")];
    let r = filter_and_combine_tags(&tags, &["tag"], false);
    assert_eq!(r, Some("Zebra,apple".to_string()));
}

#[test]
fn project_filters_categories() {
    let tags = vec![tag("artist", "Alice"), tag("group", "BigGroup"), tag("tag", "glasses")];
    let r = filter_and_combine_tags(&tags, &["artist"], false);
    assert_eq!(r, Some("Alice".to_string()));
}

#[test]
fn project_multiple_categories() {
    let tags = vec![tag("parody", "original"), tag("category", "doujinshi")];
    let r = filter_and_combine_tags(&tags, &["category", "parody"], false);
    assert_eq!(r, Some("doujinshi,original".to_string()));
}

#[test]
fn project_no_match_is_absent() {
    let tags = vec![tag("artist", "Alice"), tag("group", "BigGroup")];
    let r = filter_and_combine_tags(&tags, &["character"], false);
    assert_eq!(r, None);
}

#[test]
fn project_empty_list_is_absent() {
    let tags: Vec<Tag> = Vec::new();
    let r = filter_and_combine_tags(&tags, &["artist"], false);
    assert_eq!(r, None);
}

#[test]
fn project_keeps_duplicate_display_strings() {
    // sorting normalizes display order but never deduplicates
    let tags = vec![tag("tag", "glasses"), tag("tag", "glasses")];
    let r = filter_and_combine_tags(&tags, &["tag"], false);
    assert_eq!(r, Some("glasses,glasses".to_string()));
}

#[test]
fn project_duplicate_names_across_categories() {
    let tags = vec![tag("character", "Bob"), tag("tag", "Bob")];
    let r = filter_and_combine_tags(&tags, &["character", "tag"], false);
    assert_eq!(r, Some("Bob,Bob".to_string()));
}

#[test]
fn project_with_display_type() {
    let tags = vec![tag("artist", "Alice"), tag("group", "BigGroup")];
    let r = filter_and_combine_tags(&tags, &["artist", "group"], true);
    assert_eq!(r, Some("artist: Alice,group: BigGroup".to_string()));
}

#[test]
fn project_single_empty_name_is_absent() {
    // one surviving tag with an empty name joins to "", which is absence
    let tags = vec![tag("tag", "")];
    let r = filter_and_combine_tags(&tags, &["tag"], false);
    assert_eq!(r, None);
}

#[test]
fn project_two_empty_names_join_to_comma() {
    let tags = vec![tag("tag", ""), tag("tag", "")];
    let r = filter_and_combine_tags(&tags, &["tag"], false);
    assert_eq!(r, Some(",".to_string()));
}

#[test]
fn language_empty_list_is_empty() {
    let tags: Vec<Tag> = Vec::new();
    assert_eq!(language_iso(&tags, &["language"]), "".to_string());
}

#[test]
fn language_unrecognized_names_are_empty() {
    let tags = vec![tag("language", "translated"), tag("language", "klingon")];
    assert_eq!(language_iso(&tags, &["language"]), "".to_string());
}

#[test]
fn language_single_codes() {
    let en = vec![tag("language", "english")];
    let zh = vec![tag("language", "chinese")];
    let ja = vec![tag("language", "japanese")];
    assert_eq!(language_iso(&en, &["language"]), "en".to_string());
    assert_eq!(language_iso(&zh, &["language"]), "zh".to_string());
    assert_eq!(language_iso(&ja, &["language"]), "ja".to_string());
}

#[test]
fn language_last_match_wins() {
    let tags = vec![tag("language", "chinese"), tag("language", "english")];
    assert_eq!(language_iso(&tags, &["language"]), "en".to_string());
    let tags = vec![tag("language", "english"), tag("language", "chinese")];
    assert_eq!(language_iso(&tags, &["language"]), "zh".to_string());
}

#[test]
fn language_unrecognized_does_not_overwrite() {
    let tags = vec![tag("language", "japanese"), tag("language", "translated")];
    assert_eq!(language_iso(&tags, &["language"]), "ja".to_string());
}

#[test]
fn language_ignores_other_categories() {
    let tags = vec![tag("tag", "english")];
    assert_eq!(language_iso(&tags, &["language"]), "".to_string());
}
