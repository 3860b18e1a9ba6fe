//! The record mapper: builds a fixed-schema comic-library metadata record
//! from one scraped gallery record.
//!
//! The title fields and the web link are derived from the numeric gallery
//! id, the date fields from the upload date, and the creator, publisher,
//! character, genre and free-tag fields from the tag list through
//! [`filter_and_combine_tags`]; the language code comes from
//! [`language_iso`].

use vstd::prelude::*;
use crate::tags::Tag;
use crate::tags::cat_views;
use crate::tags::combined;
use crate::tags::filter_and_combine_tags;
use crate::tags::language_iso;
use crate::tags::resolved_language;
use crate::text::dec_digits;
use crate::text::u32_to_dec;

verus! {

/// The upload date of a gallery, at day precision: a plain calendar
/// triple, already decomposed by whatever clock or parser produced it.
#[derive(Clone, Copy, Debug, PartialEq, Eq, Structural)]
pub struct UploadDate {
    pub year: i32,
    pub month: u32,
    pub day: u32,
}

impl UploadDate {
    /// A calendar date whose components fit the schema's numeric fields:
    /// year in signed 16-bit range, month and day in their calendar
    /// ranges (which fit unsigned 8-bit). Any real calendar date
    /// satisfies this; a violation signals a defect upstream.
    pub open spec fn valid(self) -> bool {
        &&& -32768 <= self.year <= 32767
        &&& 1 <= self.month <= 12
        &&& 1 <= self.day <= 31
    }
}

/// One scraped gallery record: numeric id, optional pretty title, upload
/// date, optional scanlator, and the open-ended typed tag list.
#[derive(Clone, Debug)]
pub struct Hentai {
    pub id: u32,
    pub title_pretty: Option<String>,
    pub upload_date: UploadDate,
    pub scanlator: Option<String>,
    pub tags: Vec<Tag>,
}

/// ComicInfo.xml schema for tags: https://anansi-project.github.io/docs/comicinfo/documentation
/// The field set is externally fixed; the struct must be named "ComicInfo"
/// because the standard defines the root tag as "ComicInfo".
#[allow(non_snake_case)]
#[derive(Clone, Debug, Eq, PartialEq)]
pub struct ComicInfo {
    pub Series: String,
    pub SeriesSort: String,
    pub Title: String,
    pub Year: i16,
    pub Month: u8,
    pub Day: u8,
    pub Writer: Option<String>,
    pub Translator: Option<String>,
    pub Publisher: Option<String>,
    pub Characters: Option<String>,
    pub Genre: Option<String>,
    pub Tags: Option<String>,
    pub Web: String,
    pub AgeRating: String,
    pub LanguageISO: String,
}

/// The common text of the three title fields: `"[{id}] {pretty-title}"`,
/// with an empty title part when the gallery has no pretty title.
pub open spec fn title_text(id: u32, title_pretty: Option<String>) -> Seq<char> {
    "["@ + dec_digits(id as nat) + "] "@ + (match title_pretty {
        Option::Some(t) => t@,
        Option::None => Seq::empty(),
    })
}

/// The canonical gallery link built from the numeric id.
pub open spec fn web_text(id: u32) -> Seq<char> {
    "https://nhentai.net/g/"@ + dec_digits(id as nat) + "/"@
}

/// How an optional field holds a projection result: absence (`None`) when
/// the projected text is empty, never `Some("")`.
pub open spec fn opt_text(o: Option<String>, s: Seq<char>) -> bool {
    if s.len() == 0 {
        o is None
    } else {
        o matches Some(v) && v@ == s
    }
}

/// The accepted categories of the `Writer` field.
pub open spec fn writer_cats() -> Seq<Seq<char>> {
    seq!["artist"@]
}

/// The accepted categories of the `Publisher` field.
pub open spec fn publisher_cats() -> Seq<Seq<char>> {
    seq!["group"@]
}

/// The accepted categories of the `Genre` field.
pub open spec fn genre_cats() -> Seq<Seq<char>> {
    seq!["category"@, "parody"@]
}

/// The accepted categories of the `Tags` field.
pub open spec fn tags_cats() -> Seq<Seq<char>> {
    seq!["character"@, "language"@, "tag"@]
}

/// The accepted categories of the `Characters` field.
pub open spec fn characters_cats() -> Seq<Seq<char>> {
    seq!["character"@]
}

/// The category whose tags carry the gallery language.
pub open spec fn language_cats() -> Seq<Seq<char>> {
    seq!["language"@]
}

/// The full source-to-catalog mapping, field by field.
pub open spec fn maps_to(h: Hentai, c: ComicInfo) -> bool {
    &&& c.Series@ == title_text(h.id, h.title_pretty)
    &&& c.SeriesSort@ == title_text(h.id, h.title_pretty)
    &&& c.Title@ == title_text(h.id, h.title_pretty)
    &&& c.Year == h.upload_date.year as i16
    &&& c.Month == h.upload_date.month as u8
    &&& c.Day == h.upload_date.day as u8
    &&& opt_text(c.Writer, combined(h.tags@, writer_cats(), false))
    &&& c.Translator == h.scanlator
    &&& opt_text(c.Publisher, combined(h.tags@, publisher_cats(), false))
    &&& opt_text(c.Genre, combined(h.tags@, genre_cats(), false))
    &&& opt_text(c.Tags, combined(h.tags@, tags_cats(), false))
    &&& opt_text(c.Characters, combined(h.tags@, characters_cats(), false))
    &&& c.Web@ == web_text(h.id)
    &&& c.AgeRating@ == "Adults Only 18+"@
    &&& c.LanguageISO@ == resolved_language(h.tags@, language_cats())
}

/// Whether two optional strings hold the same text: both absent, or both
/// present with the same characters.
pub open spec fn opt_view_eq(a: Option<String>, b: Option<String>) -> bool {
    match (a, b) {
        (Option::None, Option::None) => true,
        (Option::Some(x), Option::Some(y)) => x@ == y@,
        _ => false,
    }
}

/// Whether two catalog records are identical, field for field, at the
/// level of their text and numbers.
pub open spec fn same_record(a: ComicInfo, b: ComicInfo) -> bool {
    &&& a.Series@ == b.Series@
    &&& a.SeriesSort@ == b.SeriesSort@
    &&& a.Title@ == b.Title@
    &&& a.Year == b.Year
    &&& a.Month == b.Month
    &&& a.Day == b.Day
    &&& opt_view_eq(a.Writer, b.Writer)
    &&& opt_view_eq(a.Translator, b.Translator)
    &&& opt_view_eq(a.Publisher, b.Publisher)
    &&& opt_view_eq(a.Characters, b.Characters)
    &&& opt_view_eq(a.Genre, b.Genre)
    &&& opt_view_eq(a.Tags, b.Tags)
    &&& a.Web@ == b.Web@
    &&& a.AgeRating@ == b.AgeRating@
    &&& a.LanguageISO@ == b.LanguageISO@
}

/// Law: the mapping is deterministic. Re-running it on the same gallery
/// record yields identical catalog records, field for field.
pub proof fn lemma_map_deterministic(h: Hentai, a: ComicInfo, b: ComicInfo)
    requires
        maps_to(h, a),
        maps_to(h, b),
    ensures
        same_record(a, b),
{
}

impl ComicInfo {
    /// Maps one gallery record to its catalog record. The date must be a
    /// valid calendar date within the schema's ranges; the tag
    /// projections, the title and link construction and the language
    /// resolution are total.
    pub fn from(hentai: Hentai) -> (r: ComicInfo)
        requires
            hentai.upload_date.valid(),
        ensures
            maps_to(hentai, r),
    {
        let title = match &hentai.title_pretty {
            Some(t) => t.clone(),
            None => String::new(),
        };
        let id_dec = u32_to_dec(hentai.id);
        let mut series = String::from_str("[");
        series.append(id_dec.as_str());
        series.append("] ");
        series.append(title.as_str());
        proof {
            assert(series@ =~= title_text(hentai.id, hentai.title_pretty));
        }

        let mut web = String::from_str("https://nhentai.net/g/");
        web.append(id_dec.as_str());
        web.append("/");
        proof {
            assert(web@ =~= web_text(hentai.id));
        }

        let writer_types: [&str; 1] = ["artist"];
        let publisher_types: [&str; 1] = ["group"];
        let genre_types: [&str; 2] = ["category", "parody"];
        let tags_types: [&str; 3] = ["character", "language", "tag"];
        let characters_types: [&str; 1] = ["character"];
        let language_types: [&str; 1] = ["language"];
        proof {
            assert(cat_views(writer_types@) =~= writer_cats());
            assert(cat_views(publisher_types@) =~= publisher_cats());
            assert(cat_views(genre_types@) =~= genre_cats());
            assert(cat_views(tags_types@) =~= tags_cats());
            assert(cat_views(characters_types@) =~= characters_cats());
            assert(cat_views(language_types@) =~= language_cats());
        }

        let tag_slice = hentai.tags.as_slice();
        let writer = filter_and_combine_tags(tag_slice, writer_types.as_slice(), false);
        let publisher = filter_and_combine_tags(tag_slice, publisher_types.as_slice(), false);
        let genre = filter_and_combine_tags(tag_slice, genre_types.as_slice(), false);
        let tags_field = filter_and_combine_tags(tag_slice, tags_types.as_slice(), false);
        let characters = filter_and_combine_tags(tag_slice, characters_types.as_slice(), false);
        let lng = language_iso(tag_slice, language_types.as_slice());

        ComicInfo {
            Series: series.clone(),
            SeriesSort: series.clone(),
            Title: series,
            Year: hentai.upload_date.year as i16,
            Month: hentai.upload_date.month as u8,
            Day: hentai.upload_date.day as u8,
            Writer: writer,
            Translator: hentai.scanlator,
            Publisher: publisher,
            Genre: genre,
            Web: web,
            Tags: tags_field,
            Characters: characters,
            AgeRating: String::from_str("Adults Only 18+"),
            LanguageISO: lng,
        }
    }
}

} // verus!
