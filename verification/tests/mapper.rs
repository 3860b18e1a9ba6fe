use comicinfo::{ComicInfo, Hentai, Tag, UploadDate};

fn tag(category: &str, name: &str) -> Tag {
    Tag { category: category.to_string(), name: name.to_string() }
}

fn sample() -> Hentai {
    Hentai {
        id: 12345,
        title_pretty: Some("Sample Title".to_string()),
        upload_date: UploadDate { year: 2023, month: 7, day: 4 },
        scanlator: Some("ScanGroup".to_string()),
        tags: vec![
            tag("artist", "Alice"),
            tag("group", "BigGroup"),
            tag("character", "Bob"),
            tag("category", "doujinshi"),
            tag("language", "english"),
        ],
    }
}

#[test]
fn end_to_end_sample() {
    let c = ComicInfo::from(sample());
    assert_eq!(c.Series, "[12345] Sample Title");
    assert_eq!(c.SeriesSort, "[12345] Sample Title");
    assert_eq!(c.Title, "[12345] Sample Title");
    assert_eq!(c.Year, 2023);
    assert_eq!(c.Month, 7);
    assert_eq!(c.Day, 4);
    assert_eq!(c.Writer, Some("Alice".to_string()));
    assert_eq!(c.Translator, Some("ScanGroup".to_string()));
    assert_eq!(c.Publisher, Some("BigGroup".to_string()));
    assert_eq!(c.Characters, Some("Bob".to_string()));
    assert_eq!(c.Genre, Some("doujinshi".to_string()));
    assert_eq!(c.Tags, Some("Bob,english".to_string()));
    assert_eq!(c.Web, "https://nhentai.net/g/12345/");
    assert_eq!(c.AgeRating, "Adults Only 18+");
    assert_eq!(c.LanguageISO, "en");
}

#[test]
fn mapping_is_idempotent() {
    let a = ComicInfo::from(sample());
    let b = ComicInfo::from(sample());
    assert_eq!(a, b);
}

#[test]
fn missing_title_leaves_empty_title_part() {
    let mut h = sample();
    h.title_pretty = None;
    let c = ComicInfo::from(h);
    assert_eq!(c.Series, "[12345] ");
    assert_eq!(c.Title, "[12345] ");
}

#[test]
fn missing_scanlator_is_absent_translator() {
    let mut h = sample();
    h.scanlator = None;
    let c = ComicInfo::from(h);
    assert_eq!(c.Translator, None);
}

#[test]
fn no_tags_leaves_projected_fields_absent() {
    let mut h = sample();
    h.tags = Vec::new();
    let c = ComicInfo::from(h);
    assert_eq!(c.Writer, None);
    assert_eq!(c.Publisher, None);
    assert_eq!(c.Genre, None);
    assert_eq!(c.Tags, None);
    assert_eq!(c.Characters, None);
    assert_eq!(c.LanguageISO, "");
}

#[test]
fn tags_field_combines_three_categories() {
    let mut h = sample();
    h.tags = vec![
        tag("tag", "glasses"),
        tag("language", "japanese"),
        tag("character", "Carol"),
    ];
    let c = ComicInfo::from(h);
    assert_eq!(c.Tags, Some("Carol,glasses,japanese".to_string()));
    assert_eq!(c.LanguageISO, "ja");
}

#[test]
fn id_zero_and_large_id() {
    let mut h = sample();
    h.id = 0;
    h.title_pretty = Some("T".to_string());
    let c = ComicInfo::from(h);
    assert_eq!(c.Series, "[0] T");
    assert_eq!(c.Web, "https://nhentai.net/g/0/");

    let mut h = sample();
    h.id = u32::MAX;
    let c = ComicInfo::from(h);
    assert_eq!(c.Web, "https://nhentai.net/g/4294967295/");
}

#[test]
fn date_components_are_copied() {
    let mut h = sample();
    h.upload_date = UploadDate { year: 1999, month: 12, day: 31 };
    let c = ComicInfo::from(h);
    assert_eq!((c.Year, c.Month, c.Day), (1999, 12, 31));
}
