//! Reading the pages of the archive: story listings and the first page of a
//! story.
use vstd::prelude::*;
use vstd::string::StringSliceAdditionalSpecFns;
use vstd::utf8::*;

use crate::document::{
    Document, nested_strings_view, nested_texts, opt_strings_view, selected_attributes,
    selected_texts,
};
use crate::text::{
    all_digits, bytes_contain, chars_of, contains_subseq, decimal_value, digit_of, digit_value,
    lemma_split_by_nonempty, parse_u32, parse_u32_spec,
    split_by, split_by_any, strings_view, chars_view,
};

verus! {

broadcast use encode_utf8_decode_utf8;

// ---------------------------------------------------------------------------
// Story listings

/// How many bytes of a listing link come before the story's name: the
/// length of `https://www.literotica.com/s/`.
pub const STORY_LINK_PREFIX_LEN: usize = 29;

/// Listing links that contain this lead to the old story viewer and are
/// passed over.
pub open spec fn passed_over_link(link: Seq<char>) -> bool {
    contains_subseq(encode_utf8(link), encode_utf8("stories/showstory.php"@))
}

/// The link's prefix of `STORY_LINK_PREFIX_LEN` bytes can be cut off, leaving
/// a valid string.
pub open spec fn link_has_name(link: Seq<char>) -> bool {
    let b = encode_utf8(link);
    b.len() >= STORY_LINK_PREFIX_LEN && is_char_boundary(b, STORY_LINK_PREFIX_LEN as int)
}

/// What is left of a link once its first `STORY_LINK_PREFIX_LEN` bytes are
/// cut off.
pub open spec fn link_name(link: Seq<char>) -> Seq<char> {
    let b = encode_utf8(link);
    decode_utf8(b.subrange(STORY_LINK_PREFIX_LEN as int, b.len() as int))
}

/// A matched listing element that can be read: it has an `href`, and that
/// link is either passed over or long enough to cut.
pub open spec fn listing_link_ok(link: Option<Seq<char>>) -> bool {
    link matches Some(l) && (passed_over_link(l) || link_has_name(l))
}

pub open spec fn listing_links_ok(links: Seq<Option<Seq<char>>>) -> bool {
    forall|i: int| 0 <= i < links.len() ==> #[trigger] listing_link_ok(links[i])
}

/// The story names of a listing: for each link in order that is not passed
/// over, the link without its prefix.
pub open spec fn story_names_of(links: Seq<Option<Seq<char>>>) -> Seq<Seq<char>>
    decreases links.len(),
{
    if links.len() == 0 {
        Seq::empty()
    } else {
        let names = story_names_of(links.drop_last());
        let link = links.last()->0;
        if passed_over_link(link) {
            names
        } else {
            names.push(link_name(link))
        }
    }
}

/// What `parse_story_listing` makes of the page with source text `source`:
/// `None` where the reading fails (a story element without a link, or a link
/// too short to cut).
pub open spec fn story_listing_of(source: Seq<char>) -> Option<Seq<Seq<char>>> {
    match selected_attributes(source, ".r-34i"@, "href"@) {
        Some(links) => if listing_links_ok(links) {
            Some(story_names_of(links))
        } else {
            None
        },
        None => None,
    }
}

/// Whether a link is passed over.
fn is_passed_over(link: &str) -> (b: bool)
    ensures
        b == passed_over_link(link@),
{
    bytes_contain(link.as_bytes(), "stories/showstory.php".as_bytes())
}

/// Whether every link can be read.
pub fn story_links_ok(links: &Vec<Option<String>>) -> (b: bool)
    ensures
        b == listing_links_ok(opt_strings_view(links@)),
{
    let ghost v = opt_strings_view(links@);
    for i in 0..links.len()
        invariant
            v == opt_strings_view(links@),
            forall|j: int| 0 <= j < i ==> #[trigger] listing_link_ok(v[j]),
    {
        match &links[i] {
            None => {
                assert(!listing_link_ok(v[i as int]));
                return false;
            },
            Some(link) => {
                let s = link.as_str();
                assert(v[i as int] == Some(s@));
                if !is_passed_over(s) && !(s.as_bytes().len() >= STORY_LINK_PREFIX_LEN && s.is_char_boundary(
                    STORY_LINK_PREFIX_LEN,
                )) {
                    assert(!listing_link_ok(v[i as int]));
                    return false;
                }
            },
        }
    }
    true
}

/// The story names that the links of a listing page lead to: each link that
/// is not passed over, without its first `STORY_LINK_PREFIX_LEN` bytes.
pub fn story_names(links: &Vec<Option<String>>) -> (names: Vec<String>)
    requires
        listing_links_ok(opt_strings_view(links@)),
    ensures
        strings_view(names@) == story_names_of(opt_strings_view(links@)),
{
    let ghost v = opt_strings_view(links@);
    let mut names: Vec<String> = Vec::new();
    assert(v.take(0) =~= Seq::<Option<Seq<char>>>::empty());
    for i in 0..links.len()
        invariant
            v == opt_strings_view(links@),
            listing_links_ok(v),
            strings_view(names@) == story_names_of(v.take(i as int)),
    {
        assert(v.take(i + 1).drop_last() =~= v.take(i as int));
        assert(listing_link_ok(v[i as int]));
        let link = links[i].as_ref().unwrap().as_str();
        if !is_passed_over(link) {
            let (_, rest) = link.split_at(STORY_LINK_PREFIX_LEN);
            let name = rest.to_owned();
            names.push(name);
            assert(strings_view(names@) =~= story_names_of(v.take(i as int)).push(link_name(link@)));
        }
    }
    assert(v.take(v.len() as int) =~= v);
    names
}

/// Reads the story names off a listing page: the links of the elements of
/// class `r-34i`, except those to the old story viewer, without the prefix
/// that every story link shares. `None` where a story element has no link or
/// a link is too short to cut.
pub fn parse_story_listing(document: &Document) -> (names: Option<Vec<String>>)
    ensures
        match names {
            Some(n) => story_listing_of(document@) == Some(strings_view(n@)),
            None => story_listing_of(document@) is None,
        },
{
    match document.select_attributes(".r-34i", "href") {
        Some(links) => if story_links_ok(&links) {
            Some(story_names(&links))
        } else {
            None
        },
        None => None,
    }
}

// ---------------------------------------------------------------------------
// The first page of a story

/// What the first page of a story tells of it. `rating` is in hundredths of
/// a rating point (a rating of 3.45 is 345); `next_url` is the link of the
/// story's second page, empty when it has none.
pub struct FirstPageInfo {
    pub author_name: String,
    pub author_id: u32,
    pub title: String,
    pub description: String,
    pub tags: Vec<String>,
    pub favorites: u32,
    pub views: u32,
    pub rating: u32,
    pub next_url: String,
}

/// The model of a `FirstPageInfo`: its strings as character sequences.
pub struct FirstPageSummary {
    pub author_name: Seq<char>,
    pub author_id: u32,
    pub title: Seq<char>,
    pub description: Seq<char>,
    pub tags: Seq<Seq<char>>,
    pub favorites: u32,
    pub views: u32,
    pub rating: u32,
    pub next_url: Seq<char>,
}

impl View for FirstPageInfo {
    type V = FirstPageSummary;

    open spec fn view(&self) -> FirstPageSummary {
        FirstPageSummary {
            author_name: self.author_name@,
            author_id: self.author_id,
            title: self.title@,
            description: self.description@,
            tags: strings_view(self.tags@),
            favorites: self.favorites,
            views: self.views,
            rating: self.rating,
            next_url: self.next_url@,
        }
    }
}

impl Default for FirstPageInfo {
    fn default() -> (info: Self)
        ensures
            info@ == (FirstPageSummary {
                author_name: Seq::empty(),
                author_id: 0,
                title: Seq::empty(),
                description: Seq::empty(),
                tags: Seq::empty(),
                favorites: 0,
                views: 0,
                rating: 0,
                next_url: Seq::empty(),
            }),
    {
        let info = FirstPageInfo {
            author_name: String::new(),
            author_id: 0,
            title: String::new(),
            description: String::new(),
            tags: Vec::new(),
            favorites: 0,
            views: 0,
            rating: 0,
            next_url: String::new(),
        };
        assert(strings_view(info.tags@) =~= Seq::<Seq<char>>::empty());
        info
    }
}

/// What the queries of the first page of a story found: the texts of the
/// headline, the texts and links of the author element, and, for each tab
/// panel, the texts of its description, rating, favorites and tag elements;
/// then the links of the "Next Page" button.
pub struct FirstPageMatches {
    pub titles: Vec<String>,
    pub author_names: Vec<String>,
    pub author_links: Vec<Option<String>>,
    pub descriptions: Vec<Vec<String>>,
    pub ratings: Vec<Vec<String>>,
    pub favorites: Vec<Vec<String>>,
    pub tags: Vec<Vec<String>>,
    pub next_links: Vec<Option<String>>,
}

/// The model of a `FirstPageMatches`.
pub struct FirstPageMatchesView {
    pub titles: Seq<Seq<char>>,
    pub author_names: Seq<Seq<char>>,
    pub author_links: Seq<Option<Seq<char>>>,
    pub descriptions: Seq<Seq<Seq<char>>>,
    pub ratings: Seq<Seq<Seq<char>>>,
    pub favorites: Seq<Seq<Seq<char>>>,
    pub tags: Seq<Seq<Seq<char>>>,
    pub next_links: Seq<Option<Seq<char>>>,
}

impl View for FirstPageMatches {
    type V = FirstPageMatchesView;

    open spec fn view(&self) -> FirstPageMatchesView {
        FirstPageMatchesView {
            titles: strings_view(self.titles@),
            author_names: strings_view(self.author_names@),
            author_links: opt_strings_view(self.author_links@),
            descriptions: nested_strings_view(self.descriptions@),
            ratings: nested_strings_view(self.ratings@),
            favorites: nested_strings_view(self.favorites@),
            tags: nested_strings_view(self.tags@),
            next_links: opt_strings_view(self.next_links@),
        }
    }
}

/// The author's id in the link to the author's page: the second piece when
/// the link is split at every `=` and `&`, read as a `u32`.
pub open spec fn author_id_of(link: Seq<char>) -> Option<u32> {
    let pieces = split_by(link, seq!['=', '&']);
    if pieces.len() >= 2 {
        parse_u32_spec(pieces[1])
    } else {
        None
    }
}

/// The hundredths that the fraction digits of a rating stand for: its first
/// two digits, padded with `0` to two digits. `None` unless the fraction is
/// all ASCII digits.
pub open spec fn fraction_hundredths(frac: Seq<char>) -> Option<nat> {
    if all_digits(frac) {
        let tens = if frac.len() >= 1 {
            digit_value(frac[0])->0
        } else {
            0
        };
        let ones = if frac.len() >= 2 {
            digit_value(frac[1])->0
        } else {
            0
        };
        Some(10 * tens + ones)
    } else {
        None
    }
}

/// The whole part of a rating, before its first dot: 0 when it is empty,
/// else read as a `u32`.
pub open spec fn rating_whole_of(whole: Seq<char>) -> Option<u32> {
    if whole.len() == 0 {
        Some(0)
    } else {
        parse_u32_spec(whole)
    }
}

/// A rating text such as "4.59" in hundredths of a point: the whole part
/// (before the first dot) times 100, plus the hundredths of the fraction
/// (the digits after the first dot, further dots left out). 0 when either
/// part cannot be read or the value does not fit in a `u32`.
pub open spec fn rating_of(text: Seq<char>) -> u32 {
    let pieces = split_by(text, seq!['.']);
    match (rating_whole_of(pieces[0]), fraction_hundredths(pieces.drop_first().flatten())) {
        (Some(whole), Some(h)) => if whole * 100 + h <= u32::MAX {
            (whole * 100 + h) as u32
        } else {
            0
        },
        _ => 0,
    }
}

/// Ratings are kept in hundredths of a point: a rating shown as `a.bc` is
/// kept as the number `abc`, one shown as `a.b` as `ab0`, and one shown as
/// `a` as `a00`.
pub proof fn rating_in_hundredths(a: char, b: char, c: char)
    requires
        digit_value(a) is Some,
        digit_value(b) is Some,
        digit_value(c) is Some,
    ensures
        rating_of(seq![a, '.', b, c]) == 100 * digit_value(a)->0 + 10 * digit_value(b)->0
            + digit_value(c)->0,
        rating_of(seq![a, '.', b]) == 100 * digit_value(a)->0 + 10 * digit_value(b)->0,
        rating_of(seq![a]) == 100 * digit_value(a)->0,
{
    let dot = seq!['.'];
    assert(dot.contains('.')) by {
        assert(dot[0] == '.');
    }
    assert(a != '.' && b != '.' && c != '.');
    assert(forall|x: char| x != '.' ==> !dot.contains(x));
    let whole = seq![a];
    assert(whole.drop_last() =~= Seq::<char>::empty());
    assert(decimal_value(Seq::<char>::empty()) == 0);
    assert(decimal_value(whole) == digit_value(a)->0);
    assert(all_digits(whole));
    assert(parse_u32_spec(whole) == Some((digit_value(a)->0) as u32));
    // The whole number alone.
    assert(split_by(Seq::<char>::empty(), dot) =~= seq![Seq::<char>::empty()]);
    assert(split_by(whole, dot) =~= seq![whole]);
    assert(seq![whole].drop_first().flatten() =~= Seq::<char>::empty());
    assert(fraction_hundredths(Seq::<char>::empty()) == Some(0nat));
    // With one fraction digit.
    let short = seq![a, '.', b];
    assert(short.drop_last() =~= seq![a, '.']);
    assert(seq![a, '.'].drop_last() =~= whole);
    assert(split_by(seq![a, '.'], dot) =~= seq![whole, Seq::<char>::empty()]);
    assert(split_by(short, dot) =~= seq![whole, seq![b]]);
    assert(seq![whole, seq![b]].drop_first() =~= seq![seq![b]]);
    seq![seq![b]].lemma_flatten_singleton();
    assert(all_digits(seq![b]));
    assert(fraction_hundredths(seq![b]) == Some(10 * digit_value(b)->0));
    // With two.
    let long = seq![a, '.', b, c];
    assert(long.drop_last() =~= short);
    assert(seq![b].push(c) =~= seq![b, c]);
    assert(split_by(long, dot) =~= seq![whole, seq![b, c]]);
    assert(seq![whole, seq![b, c]].drop_first() =~= seq![seq![b, c]]);
    seq![seq![b, c]].lemma_flatten_singleton();
    assert(all_digits(seq![b, c]));
    assert(fraction_hundredths(seq![b, c]) == Some(10 * digit_value(b)->0 + digit_value(c)->0));
}

/// A count read as a `u32`, 0 when it cannot be read.
pub open spec fn count_of(text: Seq<char>) -> u32 {
    match parse_u32_spec(text) {
        Some(n) => n,
        None => 0,
    }
}

/// The matches of a first page can be read: there is an author element with
/// a link that holds an id, a first tab panel with a description, a second
/// tab panel, and a "Next Page" button, if there is one, has a link.
pub open spec fn first_page_readable(m: FirstPageMatchesView) -> bool {
    &&& m.author_names.len() > 0
    &&& m.author_links.len() > 0
    &&& m.author_links[0] matches Some(link) && author_id_of(link) is Some
    &&& m.descriptions.len() > 0
    &&& m.descriptions[0].len() > 0
    &&& m.ratings.len() > 0
    &&& m.favorites.len() > 0
    &&& m.tags.len() > 1
    &&& m.next_links.len() > 0 ==> m.next_links[0] is Some
}

/// What the first page says of a story, given what its queries found and
/// the story's view count.
pub open spec fn first_page_summary(m: FirstPageMatchesView, views: u32) -> FirstPageSummary {
    FirstPageSummary {
        author_name: m.author_names[0],
        author_id: author_id_of(m.author_links[0]->0)->0,
        title: if m.titles.len() > 0 {
            m.titles[0]
        } else {
            Seq::empty()
        },
        description: m.descriptions[0][0],
        tags: m.tags[1],
        favorites: if m.favorites[0].len() > 0 {
            count_of(m.favorites[0][0])
        } else {
            0
        },
        views: views,
        rating: if m.ratings[0].len() > 0 {
            rating_of(m.ratings[0][0])
        } else {
            0
        },
        next_url: if m.next_links.len() > 0 {
            m.next_links[0]->0
        } else {
            Seq::empty()
        },
    }
}

/// The tags read off a first page are every tag text of its second tab
/// panel, however many there are; the author, the description and the view
/// count are the first author element's text, the first panel's first
/// description, and the count given.
pub proof fn first_page_fields_law(m: FirstPageMatchesView, views: u32)
    requires
        first_page_readable(m),
    ensures
        first_page_summary(m, views).tags == m.tags[1],
        first_page_summary(m, views).tags.len() == m.tags[1].len(),
        forall|k: int|
            0 <= k < m.tags[1].len() ==> #[trigger] first_page_summary(m, views).tags[k]
                == m.tags[1][k],
        first_page_summary(m, views).author_name == m.author_names[0],
        first_page_summary(m, views).description == m.descriptions[0][0],
        first_page_summary(m, views).views == views,
{
}

/// The tags that `parse_first_story_page` reads off a page are every text
/// of a `.av_as.av_r` element in the page's second tab panel.
pub proof fn first_page_tags_law(source: Seq<char>, views: u32)
    ensures
        first_page_of(source, views) matches Some(summary) ==> nested_texts(
            source,
            "div[role=tabpanel]"@,
            ".av_as.av_r"@,
        ) matches Some(panels) && panels.len() > 1 && summary.tags == panels[1]
            && summary.views == views,
{
}

/// What `parse_first_story_page` makes of the page with source text
/// `source`: `None` where a query fails or the matches cannot be read.
pub open spec fn first_page_of(source: Seq<char>, views: u32) -> Option<FirstPageSummary> {
    match (
        selected_texts(source, "h1.headline"@),
        selected_texts(source, "a.y_eU"@),
        selected_attributes(source, "a.y_eU"@, "href"@),
        nested_texts(source, "div[role=tabpanel]"@, ".aK_B"@),
        nested_texts(source, "div[role=tabpanel]"@, "div[title=Rating] span"@),
        nested_texts(source, "div[role=tabpanel]"@, "div[title=Favorites] span"@),
        nested_texts(source, "div[role=tabpanel]"@, ".av_as.av_r"@),
        selected_attributes(source, "a[title=\"Next Page\"]"@, "href"@),
    ) {
        (
            Some(titles),
            Some(author_names),
            Some(author_links),
            Some(descriptions),
            Some(ratings),
            Some(favorites),
            Some(tags),
            Some(next_links),
        ) => {
            let m = FirstPageMatchesView {
                titles,
                author_names,
                author_links,
                descriptions,
                ratings,
                favorites,
                tags,
                next_links,
            };
            if first_page_readable(m) {
                Some(first_page_summary(m, views))
            } else {
                None
            }
        },
        _ => None,
    }
}

/// The text of the story's view count, given for each tab panel of its first
/// page the texts of its `div[title=Views] span` elements: the first of
/// those in the first panel.
pub open spec fn views_text_from(panels: Seq<Seq<Seq<char>>>) -> Option<Seq<char>> {
    if panels.len() > 0 && panels[0].len() > 0 {
        Some(panels[0][0])
    } else {
        None
    }
}

/// The text of the story's view count on its first page.
pub open spec fn views_text_of(source: Seq<char>) -> Option<Seq<char>> {
    match nested_texts(source, "div[role=tabpanel]"@, "div[title=Views] span"@) {
        Some(panels) => views_text_from(panels),
        None => None,
    }
}

/// The author's id in a link to the author's page, if it holds one.
pub fn parse_author_id(link: &str) -> (id: Option<u32>)
    ensures
        id == author_id_of(link@),
{
    let chars = chars_of(link);
    let seps = vec!['=', '&'];
    assert(seps@ =~= seq!['=', '&']);
    let pieces = split_by_any(chars.as_slice(), seps.as_slice());
    if pieces.len() >= 2 {
        assert(pieces@[1]@ == split_by(link@, seq!['=', '&'])[1]);
        parse_u32(pieces[1].as_slice())
    } else {
        None
    }
}

/// The hundredths that the fraction digits of a rating stand for, if they
/// are all digits.
pub fn parse_fraction_hundredths(frac: &[char]) -> (h: Option<u32>)
    ensures
        match h {
            Some(v) => fraction_hundredths(frac@) == Some(v as nat),
            None => fraction_hundredths(frac@) is None,
        },
{
    for i in 0..frac.len()
        invariant
            forall|j: int| 0 <= j < i ==> (#[trigger] digit_value(frac@[j])) is Some,
    {
        if digit_of(frac[i]).is_none() {
            return None;
        }
    }
    assert(all_digits(frac@));
    let tens: u32 = if frac.len() >= 1 {
        digit_of(frac[0]).unwrap()
    } else {
        0
    };
    let ones: u32 = if frac.len() >= 2 {
        digit_of(frac[1]).unwrap()
    } else {
        0
    };
    Some(10 * tens + ones)
}

/// A rating text such as "4.59" in hundredths of a point (459); 0 when it
/// cannot be read.
pub fn parse_rating(text: &str) -> (rating: u32)
    ensures
        rating == rating_of(text@),
{
    let chars = chars_of(text);
    let dot = vec!['.'];
    assert(dot@ =~= seq!['.']);
    let pieces = split_by_any(chars.as_slice(), dot.as_slice());
    let ghost pv = chars_view(pieces@);
    proof {
        lemma_split_by_nonempty(text@, seq!['.']);
    }
    let whole = if pieces[0].len() == 0 {
        Some(0u32)
    } else {
        parse_u32(pieces[0].as_slice())
    };
    let mut frac: Vec<char> = Vec::new();
    assert(pv.subrange(1, 1) =~= Seq::<Seq<char>>::empty());
    for k in 1..pieces.len()
        invariant
            pv == chars_view(pieces@),
            pieces@.len() >= 1,
            frac@ == pv.subrange(1, k as int).flatten(),
    {
        let ghost before = frac@;
        let piece = &pieces[k];
        for j in 0..piece.len()
            invariant
                piece@ == pieces@[k as int]@,
                pv == chars_view(pieces@),
                k < pieces@.len(),
                frac@ == before + pieces@[k as int]@.take(j as int),
        {
            frac.push(piece[j]);
            assert(pieces@[k as int]@.take(j + 1) =~= pieces@[k as int]@.take(j as int).push(
                pieces@[k as int]@[j as int],
            ));
            assert(frac@ =~= before + pieces@[k as int]@.take(j + 1));
        }
        proof {
            assert(pieces@[k as int]@.take(pieces@[k as int]@.len() as int) =~= pieces@[k as int]@);
            assert(pv.subrange(1, k + 1) =~= pv.subrange(1, k as int).push(pv[k as int]));
            pv.subrange(1, k as int).lemma_flatten_push(pv[k as int]);
        }
    }
    assert(pv.subrange(1, pv.len() as int) =~= pv.drop_first());
    assert(pv[0] == pieces@[0]@);
    match (whole, parse_fraction_hundredths(frac.as_slice())) {
        (Some(w), Some(h)) => {
            let v: u64 = w as u64 * 100 + h as u64;
            if v <= 0xffff_ffff {
                v as u32
            } else {
                0
            }
        },
        _ => 0,
    }
}

/// A count such as a number of favorites; 0 when it cannot be read.
pub fn parse_count(text: &str) -> (count: u32)
    ensures
        count == count_of(text@),
{
    let chars = chars_of(text);
    match parse_u32(chars.as_slice()) {
        Some(n) => n,
        None => 0,
    }
}

fn clone_strings(v: &Vec<String>) -> (r: Vec<String>)
    ensures
        strings_view(r@) == strings_view(v@),
        r@.len() == v@.len(),
{
    let mut r: Vec<String> = Vec::new();
    for i in 0..v.len()
        invariant
            r@.len() == i,
            forall|j: int| 0 <= j < i ==> #[trigger] r@[j]@ == v@[j]@,
    {
        let c = v[i].clone();
        r.push(c);
    }
    assert(strings_view(r@) =~= strings_view(v@));
    r
}

/// Whether the matches of a first page can be read.
pub fn first_page_matches_readable(m: &FirstPageMatches) -> (b: bool)
    ensures
        b == first_page_readable(m@),
{
    if m.author_names.len() == 0 || m.author_links.len() == 0 {
        return false;
    }
    let id = match &m.author_links[0] {
        Some(link) => parse_author_id(link.as_str()),
        None => None,
    };
    if id.is_none() {
        return false;
    }
    if m.descriptions.len() == 0 || m.descriptions[0].len() == 0 {
        return false;
    }
    if m.ratings.len() == 0 || m.favorites.len() == 0 || m.tags.len() < 2 {
        return false;
    }
    m.next_links.len() == 0 || m.next_links[0].is_some()
}

/// The story's facts as its first page gives them, from what the page's
/// queries found and the view count read off the page.
pub fn first_page_info(m: &FirstPageMatches, views: u32) -> (info: FirstPageInfo)
    requires
        first_page_readable(m@),
    ensures
        info@ == first_page_summary(m@, views),
        strings_view(info.tags@) == m@.tags[1],
        info.tags@.len() == m.tags@[1]@.len(),
        info.author_name@ == m@.author_names[0],
        info.description@ == m@.descriptions[0][0],
        info.views == views,
{
    let title = if m.titles.len() > 0 {
        m.titles[0].clone()
    } else {
        String::new()
    };
    let author_id = parse_author_id(m.author_links[0].as_ref().unwrap().as_str()).unwrap();
    let favorites = if m.favorites[0].len() > 0 {
        parse_count(m.favorites[0][0].as_str())
    } else {
        0
    };
    let rating = if m.ratings[0].len() > 0 {
        parse_rating(m.ratings[0][0].as_str())
    } else {
        0
    };
    let next_url = if m.next_links.len() > 0 {
        m.next_links[0].as_ref().unwrap().clone()
    } else {
        String::new()
    };
    FirstPageInfo {
        author_name: m.author_names[0].clone(),
        author_id,
        title,
        description: m.descriptions[0][0].clone(),
        tags: clone_strings(&m.tags[1]),
        favorites,
        views,
        rating,
        next_url,
    }
}

/// Reads the first page of a story: its title, author, description, tags,
/// favorites, rating and the link of its second page, with `views` as its
/// view count. `None` where a query fails or the page cannot be read: no
/// author element, an author link without an id, fewer than two tab panels,
/// no description, or a "Next Page" button without a link.
pub fn parse_first_story_page(document: &Document, views: u32) -> (info: Option<FirstPageInfo>)
    ensures
        match info {
            Some(i) => first_page_of(document@, views) == Some(i@),
            None => first_page_of(document@, views) is None,
        },
{
    let titles = match document.select_texts("h1.headline") {
        Some(v) => v,
        None => return None,
    };
    let author_names = match document.select_texts("a.y_eU") {
        Some(v) => v,
        None => return None,
    };
    let author_links = match document.select_attributes("a.y_eU", "href") {
        Some(v) => v,
        None => return None,
    };
    let descriptions = match document.select_nested_texts("div[role=tabpanel]", ".aK_B") {
        Some(v) => v,
        None => return None,
    };
    let ratings = match document.select_nested_texts("div[role=tabpanel]", "div[title=Rating] span") {
        Some(v) => v,
        None => return None,
    };
    let favorites = match document.select_nested_texts(
        "div[role=tabpanel]",
        "div[title=Favorites] span",
    ) {
        Some(v) => v,
        None => return None,
    };
    let tags = match document.select_nested_texts("div[role=tabpanel]", ".av_as.av_r") {
        Some(v) => v,
        None => return None,
    };
    let next_links = match document.select_attributes("a[title=\"Next Page\"]", "href") {
        Some(v) => v,
        None => return None,
    };
    let m = FirstPageMatches {
        titles,
        author_names,
        author_links,
        descriptions,
        ratings,
        favorites,
        tags,
        next_links,
    };
    if first_page_matches_readable(&m) {
        Some(first_page_info(&m, views))
    } else {
        None
    }
}

/// The text of the story's view count, given the texts of the view count
/// elements of each tab panel.
pub fn views_text_from_panels(panels: &Vec<Vec<String>>) -> (text: Option<String>)
    ensures
        match text {
            Some(t) => views_text_from(nested_strings_view(panels@)) == Some(t@),
            None => views_text_from(nested_strings_view(panels@)) is None,
        },
{
    if panels.len() > 0 && panels[0].len() > 0 {
        Some(panels[0][0].clone())
    } else {
        None
    }
}

/// The text of the story's view count on its first page, if the page shows
/// one.
pub fn first_page_views_text(document: &Document) -> (text: Option<String>)
    ensures
        match text {
            Some(t) => views_text_of(document@) == Some(t@),
            None => views_text_of(document@) is None,
        },
{
    match document.select_nested_texts("div[role=tabpanel]", "div[title=Views] span") {
        Some(panels) => views_text_from_panels(&panels),
        None => None,
    }
}

/// The text of a story page, as far as this reader goes: always "hello".
pub fn parse_story_text(document: &Document) -> (text: String)
    ensures
        text@ == "hello"@,
{
    String::from_str("hello")
}

} // verus!
