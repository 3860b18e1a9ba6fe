//! The tag-taxonomy projection and the language resolver.
//!
//! A gallery carries an open-ended list of typed tags; the target schema has
//! only a few untyped string fields. [`filter_and_combine_tags`] flattens the
//! tags of chosen categories into one sorted, comma-joined string, and
//! [`language_iso`] derives a single two-letter language code from the
//! language tags.

use vstd::prelude::*;
use vstd::relations::sorted_by;
use vstd::seq_lib::lemma_sorted_unique;
use vstd::seq_lib::to_multiset_insert;
use crate::text::join_comma;
use crate::text::join_strings;
use crate::text::lex_le;
use crate::text::lex_leq_fn;
use crate::text::lemma_lex_total_ordering;
use crate::text::str_eq;
use crate::text::str_le;

verus! {

/// One typed tag of a gallery: a category (artist, group, character,
/// language, ...) and a name. Duplicates across categories are permitted
/// and meaningful.
#[derive(Clone, Debug)]
pub struct Tag {
    pub category: String,
    pub name: String,
}

/// The views of a list of category names.
pub open spec fn cat_views(cats: Seq<&str>) -> Seq<Seq<char>> {
    cats.map_values(|c: &str| c@)
}

/// How one tag is displayed: its bare name, or a "category: name"
/// composite when `show` is set.
pub open spec fn display_of(t: Tag, show: bool) -> Seq<char> {
    if show {
        t.category@ + ": "@ + t.name@
    } else {
        t.name@
    }
}

/// The predicate selecting tags whose category is accepted.
pub open spec fn accepted_by(cats: Seq<Seq<char>>) -> spec_fn(Tag) -> bool {
    |t: Tag| cats.contains(t.category@)
}

/// The tags whose category is accepted, in their original order.
pub open spec fn surviving(tags: Seq<Tag>, cats: Seq<Seq<char>>) -> Seq<Tag> {
    tags.filter(accepted_by(cats))
}

/// The display strings of the surviving tags, in their original order.
pub open spec fn displays(tags: Seq<Tag>, cats: Seq<Seq<char>>, show: bool) -> Seq<Seq<char>> {
    surviving(tags, cats).map_values(|t: Tag| display_of(t, show))
}

/// The display strings of the surviving tags, sorted ascending. Sorting
/// normalizes the display order only: duplicates are kept.
pub open spec fn projected(tags: Seq<Tag>, cats: Seq<Seq<char>>, show: bool) -> Seq<Seq<char>> {
    displays(tags, cats, show).sort_by(lex_leq_fn())
}

/// The full projection: surviving display strings, sorted, comma-joined.
pub open spec fn combined(tags: Seq<Tag>, cats: Seq<Seq<char>>, show: bool) -> Seq<char> {
    join_comma(projected(tags, cats, show))
}

/// Whether `s` is one of the category names in `cats`.
fn contains_str(cats: &[&str], s: &str) -> (r: bool)
    ensures
        r == cat_views(cats@).contains(s@),
{
    let n = cats.len();
    let mut j: usize = 0;
    while j < n
        invariant
            j <= n,
            n == cats@.len(),
            forall|k: int| 0 <= k < j ==> cats@[k]@ != s@,
        decreases n - j,
    {
        if str_eq(cats[j], s) {
            proof {
                assert(cat_views(cats@)[j as int] == s@);
            }
            return true;
        }
        j = j + 1;
    }
    proof {
        assert(!cat_views(cats@).contains(s@)) by {
            if cat_views(cats@).contains(s@) {
                let idx = choose|idx: int|
                    0 <= idx < cat_views(cats@).len() && cat_views(cats@)[idx] == s@;
                assert(cats@[idx]@ == s@);
            }
        }
    }
    false
}

/// The views of a vector of strings.
pub open spec fn str_views(v: Seq<String>) -> Seq<Seq<char>> {
    v.map_values(|p: String| p@)
}

/// The position at which `x` is inserted into the sorted vector `out`:
/// everything before it compares at or below `x`, and the element at the
/// position (if any) compares strictly above.
fn insert_pos(out: &Vec<String>, x: &String) -> (j: usize)
    ensures
        j <= out@.len(),
        forall|k: int| 0 <= k < j ==> lex_le(#[trigger] str_views(out@)[k], x@),
        j < out@.len() ==> !lex_le(str_views(out@)[j as int], x@),
{
    let n = out.len();
    let mut j: usize = 0;
    while j < n
        invariant
            j <= n,
            n == out@.len(),
            forall|k: int| 0 <= k < j ==> lex_le(#[trigger] str_views(out@)[k], x@),
        decreases n - j,
    {
        if !str_le(out[j].as_str(), x.as_str()) {
            return j;
        }
        j = j + 1;
    }
    j
}

/// Sorts the given strings ascending in lexicographic order; the result is
/// exactly `sort_by` of the input views.
fn sort_strings(input: &Vec<String>) -> (out: Vec<String>)
    ensures
        str_views(out@) == str_views(input@).sort_by(lex_leq_fn()),
{
    let ghost leq = lex_leq_fn();
    let mut out: Vec<String> = Vec::new();
    proof {
        assert(str_views(out@) =~= str_views(input@.take(0)));
    }
    let mut i: usize = 0;
    while i < input.len()
        invariant
            i <= input@.len(),
            leq == lex_leq_fn(),
            sorted_by(str_views(out@), leq),
            str_views(out@).to_multiset() == str_views(input@.take(i as int)).to_multiset(),
        decreases input@.len() - i,
    {
        let x = input[i].clone();
        let ghost xv = x@;
        let j = insert_pos(&out, &x);
        let ghost prev = out@;
        out.insert(j, x);
        proof {
            lemma_lex_total_ordering();
            assert(str_views(out@) =~= str_views(prev).insert(j as int, xv));
            // the inserted element keeps the vector sorted
            let sv = str_views(prev);
            let nv = str_views(out@);
            sv.insert_ensures(j as int, xv);
            assert forall|p: int, q: int| 0 <= p < q < nv.len() implies
                #[trigger] leq(nv[p], nv[q]) by {
                if q < j {
                    assert(nv[p] == sv[p] && nv[q] == sv[q]);
                    assert(leq(sv[p], sv[q]));
                } else if p < j && q == j {
                    assert(nv[p] == sv[p] && nv[q] == xv);
                    assert(leq(sv[p], xv));
                } else if p < j && q > j {
                    assert(nv[p] == sv[p] && nv[q] == sv[q - 1]);
                    assert(leq(sv[p], sv[q - 1]));
                } else if p == j && q > j {
                    // x goes before prev[j], which bounds the rest
                    assert(nv[p] == xv && nv[q] == sv[q - 1]);
                    assert(!lex_le(sv[j as int], xv));
                    assert(leq(xv, sv[j as int]) || leq(sv[j as int], xv));
                    assert(leq(xv, sv[j as int]));
                    if q - 1 > j {
                        assert(leq(sv[j as int], sv[q - 1]));
                    }
                } else {
                    assert(nv[p] == sv[p - 1] && nv[q] == sv[q - 1]);
                    assert(leq(sv[p - 1], sv[q - 1]));
                }
            }
            // the inserted element adds exactly one occurrence
            to_multiset_insert(sv, j as int, xv);
            assert(str_views(input@.take(i + 1)) =~= str_views(input@.take(i as int)).push(
                input@[i as int]@,
            ));
            str_views(input@.take(i as int)).to_multiset_ensures();
            assert(str_views(out@).to_multiset() == str_views(input@.take(i + 1)).to_multiset());
        }
        i = i + 1;
    }
    proof {
        assert(input@.take(input@.len() as int) =~= input@);
        lemma_lex_total_ordering();
        str_views(input@).lemma_sort_by_ensures(leq);
        lemma_sorted_unique(str_views(out@), str_views(input@).sort_by(leq), leq);
        assert(str_views(out@) =~= str_views(input@).sort_by(leq));
    }
    out
}

/// One step of the filter-and-display pipeline: extending the tag prefix by
/// one tag either appends its display string (category accepted) or leaves
/// the display list unchanged.
proof fn lemma_displays_step(tags: Seq<Tag>, cats: Seq<Seq<char>>, show: bool, i: int)
    requires
        0 <= i < tags.len(),
    ensures
        cats.contains(tags[i].category@) ==> displays(tags.take(i + 1), cats, show)
            == displays(tags.take(i), cats, show).push(display_of(tags[i], show)),
        !cats.contains(tags[i].category@) ==> displays(tags.take(i + 1), cats, show)
            == displays(tags.take(i), cats, show),
{
    reveal(Seq::filter);
    let pred = accepted_by(cats);
    assert(tags.take(i + 1).drop_last() =~= tags.take(i));
    assert(tags.take(i + 1).last() == tags[i]);
    if pred(tags[i]) {
        assert(surviving(tags.take(i + 1), cats) == surviving(tags.take(i), cats).push(tags[i]));
        surviving(tags.take(i), cats).lemma_push_map_commute(
            |t: Tag| display_of(t, show),
            tags[i],
        );
        assert(displays(tags.take(i + 1), cats, show) =~= displays(tags.take(i), cats, show).push(
            display_of(tags[i], show),
        ));
    } else {
        assert(surviving(tags.take(i + 1), cats) == surviving(tags.take(i), cats));
    }
}

/// Filters tags by category and combines the survivors into a single
/// sorted, comma-joined string; absence (no surviving text) is `None`,
/// never `Some("")`.
///
/// `types` holds the accepted categories; `display_type` selects the
/// "category: name" composite display over the bare name.
pub fn filter_and_combine_tags(tags: &[Tag], types: &[&str], display_type: bool) -> (result: Option<
    String,
>)
    ensures
        combined(tags@, cat_views(types@), display_type).len() == 0 ==> result is None,
        combined(tags@, cat_views(types@), display_type).len() > 0 ==> (result matches Some(s)
            && s@ == combined(tags@, cat_views(types@), display_type)),
{
    let ghost cats = cat_views(types@);
    let n = tags.len();
    let mut parts: Vec<String> = Vec::new();
    let mut i: usize = 0;
    while i < n
        invariant
            i <= n,
            n == tags@.len(),
            cats == cat_views(types@),
            str_views(parts@) == displays(tags@.take(i as int), cats, display_type),
        decreases n - i,
    {
        let t = &tags[i];
        let ghost prev = parts@;
        if contains_str(types, t.category.as_str()) {
            let d: String = if display_type {
                let mut d = t.category.clone();
                d.append(": ");
                d.append(t.name.as_str());
                d
            } else {
                t.name.clone()
            };
            assert(d@ == display_of(tags@[i as int], display_type));
            parts.push(d);
            proof {
                assert(str_views(parts@) =~= str_views(prev).push(d@));
            }
        }
        proof {
            lemma_displays_step(tags@, cats, display_type, i as int);
        }
        i = i + 1;
    }
    proof {
        assert(tags@.take(n as int) =~= tags@);
    }
    let sorted = sort_strings(&parts);
    let joined = join_strings(&sorted);
    assert(joined@ == combined(tags@, cats, display_type));
    if joined.as_str().is_empty() {
        None
    } else {
        Some(joined)
    }
}

/// Law: the projected display list is always sorted ascending in
/// lexicographic order, whatever the tags, the categories and the display
/// form. Together with the contract of [`filter_and_combine_tags`] — which
/// returns `Some` exactly when the joined text is non-empty — this pins
/// the shape of every present output.
pub proof fn lemma_projected_sorted(tags: Seq<Tag>, cats: Seq<Seq<char>>, show: bool)
    ensures
        sorted_by(projected(tags, cats, show), lex_leq_fn()),
{
    lemma_lex_total_ordering();
    displays(tags, cats, show).lemma_sort_by_ensures(lex_leq_fn());
}

/// Law: a tag list in which no tag has an accepted category always
/// projects to absence: the combined text is empty, so
/// [`filter_and_combine_tags`] returns `None`.
pub proof fn lemma_no_match_absent(tags: Seq<Tag>, cats: Seq<Seq<char>>, show: bool)
    requires
        forall|i: int|
            0 <= i < tags.len() ==> !cats.contains(#[trigger] tags[i].category@),
    ensures
        combined(tags, cats, show).len() == 0,
{
    let pred = accepted_by(cats);
    assert(tags.all(|t: Tag| !pred(t))) by {
        assert forall|i: int| 0 <= i < tags.len() implies !pred(tags[i]) by {
            assert(!cats.contains(tags[i].category@));
        }
    }
    tags.lemma_all_neg_filter_empty(pred);
    let d = displays(tags, cats, show);
    assert(d.len() == 0);
    lemma_lex_total_ordering();
    d.lemma_sort_by_ensures(lex_leq_fn());
    d.to_multiset_ensures();
    d.sort_by(lex_leq_fn()).to_multiset_ensures();
    assert(projected(tags, cats, show).len() == 0);
}

/// Law: the projection keeps exactly one entry per surviving tag — one
/// for each tag whose category is accepted — even when two tags display
/// as the same string.
pub proof fn lemma_one_entry_per_survivor(tags: Seq<Tag>, cats: Seq<Seq<char>>, show: bool)
    ensures
        projected(tags, cats, show).len() == surviving(tags, cats).len(),
{
    let d = displays(tags, cats, show);
    lemma_lex_total_ordering();
    d.lemma_sort_by_ensures(lex_leq_fn());
    d.to_multiset_ensures();
    d.sort_by(lex_leq_fn()).to_multiset_ensures();
}

/// Whether a tag name is in the fixed name-to-code language table.
pub open spec fn recognized(name: Seq<char>) -> bool {
    name == "english"@ || name == "chinese"@ || name == "japanese"@
}

/// The two-letter code for a recognized language name.
pub open spec fn code_of(name: Seq<char>) -> Seq<char>
    recommends
        recognized(name),
{
    if name == "english"@ {
        "en"@
    } else if name == "chinese"@ {
        "zh"@
    } else {
        "ja"@
    }
}

/// The resolved language code: that of the last tag, in list order, whose
/// category is accepted and whose name the fixed table recognizes; the
/// empty sequence when there is no such tag.
pub open spec fn resolved_language(tags: Seq<Tag>, cats: Seq<Seq<char>>) -> Seq<char>
    decreases tags.len(),
{
    if tags.len() == 0 {
        Seq::empty()
    } else if cats.contains(tags.last().category@) && recognized(tags.last().name@) {
        code_of(tags.last().name@)
    } else {
        resolved_language(tags.drop_last(), cats)
    }
}

/// Derives a single two-letter language code from the tags whose category
/// is in `types`: `"english"`, `"chinese"` and `"japanese"` map to `"en"`,
/// `"zh"` and `"ja"`; other names assign nothing. When several language
/// tags are recognized the last one wins — the schema can hold only one
/// language, a deliberate simplification. With no recognized language tag
/// the result is the empty string.
pub fn language_iso(tags: &[Tag], types: &[&str]) -> (result: String)
    ensures
        result@ == resolved_language(tags@, cat_views(types@)),
{
    let ghost cats = cat_views(types@);
    let n = tags.len();
    let mut lng_iso = String::new();
    let mut i: usize = 0;
    while i < n
        invariant
            i <= n,
            n == tags@.len(),
            cats == cat_views(types@),
            lng_iso@ == resolved_language(tags@.take(i as int), cats),
        decreases n - i,
    {
        let t = &tags[i];
        if contains_str(types, t.category.as_str()) {
            if str_eq(t.name.as_str(), "english") {
                lng_iso = String::from_str("en");
            } else if str_eq(t.name.as_str(), "chinese") {
                lng_iso = String::from_str("zh");
            } else if str_eq(t.name.as_str(), "japanese") {
                lng_iso = String::from_str("ja");
            }
        }
        proof {
            assert(tags@.take(i + 1).drop_last() =~= tags@.take(i as int));
            assert(tags@.take(i + 1).last() == tags@[i as int]);
        }
        i = i + 1;
    }
    proof {
        assert(tags@.take(n as int) =~= tags@);
    }
    lng_iso
}

/// Law: when no tag both carries an accepted category and a recognized
/// name, the resolved language is the empty string. The empty tag list is
/// the extreme case.
pub proof fn lemma_unrecognized_language_empty(tags: Seq<Tag>, cats: Seq<Seq<char>>)
    requires
        forall|i: int|
            0 <= i < tags.len() ==> (cats.contains(#[trigger] tags[i].category@)
                ==> !recognized(tags[i].name@)),
    ensures
        resolved_language(tags, cats) == Seq::<char>::empty(),
    decreases tags.len(),
{
    if tags.len() > 0 {
        assert(tags.last() == tags[tags.len() - 1]);
        lemma_unrecognized_language_empty(tags.drop_last(), cats);
    }
}

} // verus!
