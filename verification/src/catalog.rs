//! The category listings of the archive: how many listing pages a category
//! has, and where they are.
use vstd::prelude::*;

use crate::document::{Document, nested_attributes, nested_opt_strings_view};
use crate::text::{
    all_digits, chars_of, count_in, digit_value, i32_chars, lemma_decimal_chars,
    i32_text_round_trip, lemma_split_by_concat, lemma_split_by_len, lemma_split_by_no_sep,
    lemma_split_by_nonempty, parse_i32, parse_i32_spec, push_i32, split_by, split_by_any,
    string_from_chars,
};

verus! {

/// One listing page of a category.
pub struct CatInfo {
    pub category: String,
    pub page: i32,
}

impl View for CatInfo {
    type V = (Seq<char>, i32);

    open spec fn view(&self) -> (Seq<char>, i32) {
        (self.category@, self.page)
    }
}

pub open spec fn cat_infos_view(v: Seq<CatInfo>) -> Seq<(Seq<char>, i32)> {
    v.map_values(|c: CatInfo| c@)
}

/// The category and the number of its last listing page in a link such as
/// `https://www.literotica.com/c/erotic-novels/95-page`: split at `/`, the
/// fifth piece is the category, and the sixth, up to its first `-`, is the
/// page number.
pub open spec fn category_link_of(link: Seq<char>) -> Option<(Seq<char>, i32)> {
    let pieces = split_by(link, seq!['/']);
    if pieces.len() >= 6 {
        match parse_i32_spec(split_by(pieces[5], seq!['-'])[0]) {
            Some(n) => Some((pieces[4], n)),
            None => None,
        }
    } else {
        None
    }
}

/// The listing pages `1..=last` of `category`.
pub open spec fn category_pages_of(category: Seq<char>, last: i32) -> Seq<(Seq<char>, i32)> {
    Seq::new(
        if last > 0 {
            last as nat
        } else {
            0
        },
        |i: int| (category, (i + 1) as i32),
    )
}

/// The listing pages announced by the links of a category page's
/// `.b-alpha-links` blocks (for each block, the `href` of each of its `a`
/// elements): the page links by letter, and the link of the first block's
/// last `a` element names the last page. `None` where that link is missing
/// or cannot be read, or the last page is `i32::MAX`, whose successor does
/// not fit.
pub open spec fn category_listing_from(blocks: Seq<Seq<Option<Seq<char>>>>) -> Option<
    Seq<(Seq<char>, i32)>,
> {
    if blocks.len() > 0 && blocks[0].len() > 0 {
        match blocks[0].last() {
            Some(link) => match category_link_of(link) {
                Some((category, last)) => if last < i32::MAX {
                    Some(category_pages_of(category, last))
                } else {
                    None
                },
                None => None,
            },
            None => None,
        }
    } else {
        None
    }
}

/// The listing pages that the category page with source text `source`
/// announces.
pub open spec fn category_listing_of(source: Seq<char>) -> Option<Seq<(Seq<char>, i32)>> {
    match nested_attributes(source, ".b-alpha-links"@, "a"@, "href"@) {
        Some(blocks) => category_listing_from(blocks),
        None => None,
    }
}

/// The address of a listing page names its category and page number in the
/// form that `category_link_parts` reads: reading the address that
/// `category_page_url` writes gives back the category and the page, for a
/// category without `/` and a page number that is not negative.
pub proof fn category_url_round_trip(category: Seq<char>, page: i32)
    requires
        !category.contains('/'),
        page >= 0,
    ensures
        category_link_of(
            "https://www.literotica.com/c/"@ + category + "/"@ + i32_chars(page) + "-page"@,
        ) == Some((category, page)),
{
    let slash = seq!['/'];
    let dash = seq!['-'];
    assert(slash.contains('/')) by {
        assert(slash[0] == '/');
    }
    assert(dash.contains('-')) by {
        assert(dash[0] == '-');
    }
    let prefix = "https://www.literotica.com/c/"@;
    reveal_strlit("https://www.literotica.com/c/");
    reveal_strlit("/");
    reveal_strlit("-page");
    assert(prefix.len() == 29);
    // The prefix holds four slashes, the last one at its end.
    reveal_with_fuel(count_in, 30);
    assert(forall|c: char| c != '/' ==> !slash.contains(c));
    assert(forall|c: char| c != '-' ==> !dash.contains(c));
    assert(count_in(prefix, slash) == 4);
    lemma_split_by_len(prefix, slash);
    let sp = split_by(prefix, slash);
    assert(sp.len() == 5);
    assert(prefix.last() == '/');
    assert(sp.last() =~= Seq::<char>::empty());
    // The category runs on from the prefix's last (empty) piece.
    assert forall|i: int| 0 <= i < category.len() implies !slash.contains(#[trigger] category[i]) by {
        if category[i] == '/' {
            assert(category.contains('/'));
        }
    }
    lemma_split_by_no_sep(category, slash);
    lemma_split_by_concat(prefix, category, slash);
    let x = prefix + category;
    let sx = split_by(x, slash);
    assert(sp.last() + category =~= category);
    assert(seq![category].drop_first() =~= Seq::<Seq<char>>::empty());
    assert(sx =~= sp.drop_last().push(category));
    // Then a slash.
    let y = x + "/"@;
    assert(y.drop_last() =~= x);
    assert(y.last() == '/');
    let sy = split_by(y, slash);
    assert(sy == sx.push(Seq::<char>::empty()));
    // Then the page number and "-page", which hold no slash.
    let digits = i32_chars(page);
    lemma_decimal_chars(page as nat);
    assert(digits == crate::text::decimal_chars(page as nat));
    assert(all_digits(digits));
    let tail = digits + "-page"@;
    assert forall|i: int| 0 <= i < tail.len() implies !slash.contains(#[trigger] tail[i]) by {
        if i < digits.len() {
            assert(digit_value(digits[i]) is Some);
        }
    }
    lemma_split_by_no_sep(tail, slash);
    lemma_split_by_concat(y, tail, slash);
    let link = "https://www.literotica.com/c/"@ + category + "/"@ + i32_chars(page) + "-page"@;
    assert(link =~= y + tail);
    let pieces = split_by(link, slash);
    assert(Seq::<char>::empty() + tail =~= tail);
    assert(pieces =~= sx.push(tail));
    assert(pieces.len() == 6);
    assert(pieces[4] == category);
    assert(pieces[5] == tail);
    // The page number runs up to the first dash.
    assert forall|i: int| 0 <= i < digits.len() implies !dash.contains(#[trigger] digits[i]) by {
        assert(digit_value(digits[i]) is Some);
    }
    lemma_split_by_no_sep(digits, dash);
    let word = seq!['p', 'a', 'g', 'e'];
    assert forall|i: int| 0 <= i < word.len() implies !dash.contains(#[trigger] word[i]) by {
    }
    lemma_split_by_no_sep(word, dash);
    assert("-page"@ =~= dash + word);
    lemma_split_by_concat(dash, word, dash);
    assert(dash.drop_last() =~= Seq::<char>::empty());
    assert(dash.last() == '-');
    assert(split_by(Seq::<char>::empty(), dash) =~= seq![Seq::<char>::empty()]);
    assert(split_by(dash, dash) =~= seq![Seq::<char>::empty(), Seq::<char>::empty()]);
    lemma_split_by_concat(digits, "-page"@, dash);
    let sd = split_by(tail, dash);
    assert(sd[0] == digits + Seq::<char>::empty());
    assert(digits + Seq::<char>::empty() =~= digits);
    i32_text_round_trip(page);
}

/// Reads the category and the number of its last listing page off a link to
/// that page.
pub fn category_link_parts(link: &str) -> (parts: Option<(String, i32)>)
    ensures
        match parts {
            Some((category, last)) => category_link_of(link@) == Some((category@, last)),
            None => category_link_of(link@) is None,
        },
{
    let chars = chars_of(link);
    let slash = vec!['/'];
    assert(slash@ =~= seq!['/']);
    let pieces = split_by_any(chars.as_slice(), slash.as_slice());
    if pieces.len() < 6 {
        return None;
    }
    let dash = vec!['-'];
    assert(dash@ =~= seq!['-']);
    let number = split_by_any(pieces[5].as_slice(), dash.as_slice());
    proof {
        lemma_split_by_nonempty(pieces@[5]@, seq!['-']);
        assert(pieces@[5]@ == split_by(link@, seq!['/'])[5]);
        assert(pieces@[4]@ == split_by(link@, seq!['/'])[4]);
        assert(number@[0]@ == split_by(pieces@[5]@, seq!['-'])[0]);
    }
    match parse_i32(number[0].as_slice()) {
        Some(n) => Some((string_from_chars(pieces[4].as_slice()), n)),
        None => None,
    }
}

/// The listing pages `1..=last` of `category`.
pub fn category_pages(category: &String, last: i32) -> (pages: Vec<CatInfo>)
    requires
        last < i32::MAX,
    ensures
        cat_infos_view(pages@) == category_pages_of(category@, last),
{
    let mut pages: Vec<CatInfo> = Vec::new();
    let mut page: i32 = 1;
    while page <= last
        invariant
            1 <= page,
            last < i32::MAX,
            page <= last + 1 || last < 1,
            last < 1 ==> page == 1,
            pages@.len() == page - 1,
            forall|j: int| 0 <= j < pages@.len() ==> #[trigger] pages@[j]@ == (category@, (j + 1) as i32),
        decreases last + 1 - page,
    {
        pages.push(CatInfo { category: category.clone(), page });
        page = page + 1;
    }
    assert(pages@.len() == if last > 0 {
        last as int
    } else {
        0
    });
    assert(cat_infos_view(pages@) =~= category_pages_of(category@, last));
    pages
}

/// The listing pages announced by the letter links of a category page.
pub fn category_pages_from_links(blocks: &Vec<Vec<Option<String>>>) -> (pages: Option<Vec<CatInfo>>)
    ensures
        match pages {
            Some(p) => category_listing_from(nested_opt_strings_view(blocks@)) == Some(
                cat_infos_view(p@),
            ),
            None => category_listing_from(nested_opt_strings_view(blocks@)) is None,
        },
{
    if blocks.len() == 0 || blocks[0].len() == 0 {
        return None;
    }
    let link = match &blocks[0][blocks[0].len() - 1] {
        Some(l) => l,
        None => return None,
    };
    match category_link_parts(link.as_str()) {
        Some((category, last)) => if last < i32::MAX {
            Some(category_pages(&category, last))
        } else {
            None
        },
        None => None,
    }
}

/// Reads a category's first page: the listing pages that it announces, or
/// `None` where the link to the last page is missing or cannot be read.
pub fn parse_category_page(document: &Document) -> (pages: Option<Vec<CatInfo>>)
    ensures
        match pages {
            Some(p) => category_listing_of(document@) == Some(cat_infos_view(p@)),
            None => category_listing_of(document@) is None,
        },
{
    match document.select_nested_attributes(".b-alpha-links", "a", "href") {
        Some(blocks) => category_pages_from_links(&blocks),
        None => None,
    }
}

/// The address of a listing page of a category.
pub fn category_page_url(cat: &CatInfo) -> (url: String)
    ensures
        url@ == "https://www.literotica.com/c/"@ + cat.category@ + "/"@ + i32_chars(cat.page)
            + "-page"@,
{
    let mut url = String::from_str("https://www.literotica.com/c/");
    url.append(cat.category.as_str());
    url.append("/");
    push_i32(&mut url, cat.page);
    url.append("-page");
    url
}

} // verus!
