//! Fetching whole stories: where a story's pages are, how its text is put
//! together page by page, which stories still have to be fetched, and the
//! record kept of each.
use vstd::hash_set::StringHashSet;
use vstd::prelude::*;

use crate::document::{Document, opt_strings_view, selected_attributes, selected_texts};
use crate::parsers::{
    FirstPageInfo, STORY_LINK_PREFIX_LEN, link_has_name, link_name, listing_link_ok,
    listing_links_ok, passed_over_link, story_names_of,
};
use crate::text::{
    contains_subseq, join_strings, join_with, lemma_encode_utf8_boundary, lemma_encode_utf8_concat,
    occurs_at, strings_view,
};
use vstd::utf8::{encode_utf8, encode_utf8_decode_utf8, is_ascii_chars, is_ascii_chars_encode_utf8};

verus! {

/// The address of a story page, given the name that the listing links and
/// the "Next Page" buttons use for it.
pub fn story_page_url(name: &str) -> (url: String)
    ensures
        url@ == "https://www.literotica.com/s/"@ + name@,
{
    let mut url = String::from_str("https://www.literotica.com/s/");
    url.append(name);
    url
}

/// The name that a listing gives a story, read off a link to the story's
/// page, makes that link again: cutting the address prefix off the link
/// `story_page_url(name)` leaves `name`.
pub proof fn story_link_round_trip(name: Seq<char>)
    ensures
        link_has_name("https://www.literotica.com/s/"@ + name),
        link_name("https://www.literotica.com/s/"@ + name) == name,
{
    broadcast use encode_utf8_decode_utf8;

    let prefix = "https://www.literotica.com/s/"@;
    reveal_strlit("https://www.literotica.com/s/");
    assert(is_ascii_chars(prefix));
    is_ascii_chars_encode_utf8(prefix);
    lemma_encode_utf8_concat(prefix, name);
    lemma_encode_utf8_boundary(prefix, name);
    let b = encode_utf8(prefix + name);
    assert(b.subrange(STORY_LINK_PREFIX_LEN as int, b.len() as int) =~= encode_utf8(name));
}

/// A listing link to a story page is kept: the listing names the story,
/// unless the story's name itself holds the old viewer's path
/// `stories/showstory.php`.
pub proof fn story_link_kept(name: Seq<char>)
    requires
        !contains_subseq(encode_utf8(name), encode_utf8("stories/showstory.php"@)),
    ensures
        !passed_over_link("https://www.literotica.com/s/"@ + name),
        listing_links_ok(seq![Some("https://www.literotica.com/s/"@ + name)]),
        story_names_of(seq![Some("https://www.literotica.com/s/"@ + name)]) == seq![name],
{
    let prefix = "https://www.literotica.com/s/"@;
    let path = "stories/showstory.php"@;
    reveal_strlit("https://www.literotica.com/s/");
    reveal_strlit("stories/showstory.php");
    assert(prefix =~= seq![
        'h', 't', 't', 'p', 's', ':', '/', '/', 'w', 'w', 'w', '.', 'l', 'i', 't', 'e', 'r', 'o',
        't', 'i', 'c', 'a', '.', 'c', 'o', 'm', '/', 's', '/',
    ]);
    assert(path =~= seq![
        's', 't', 'o', 'r', 'i', 'e', 's', '/', 's', 'h', 'o', 'w', 's', 't', 'o', 'r', 'y', '.',
        'p', 'h', 'p',
    ]);
    assert(is_ascii_chars(prefix));
    assert(is_ascii_chars(path));
    is_ascii_chars_encode_utf8(prefix);
    is_ascii_chars_encode_utf8(path);
    lemma_encode_utf8_concat(prefix, name);
    let link = prefix + name;
    let hay = encode_utf8(link);
    let pb = encode_utf8(prefix);
    let mb = encode_utf8(path);
    assert(hay == pb + encode_utf8(name));
    assert(forall|k: int| 0 <= k < 21 && k != 7 ==> path[k] != '/');
    assert forall|i: int| !occurs_at(hay, mb, i) by {
        if occurs_at(hay, mb, i) {
            let w = hay.subrange(i, i + 21);
            if i >= 29 {
                assert(encode_utf8(name).subrange(i - 29, i - 29 + 21) =~= w);
                assert(occurs_at(encode_utf8(name), mb, i - 29));
            } else if i == 0 || i == 21 {
                assert(w[0] == hay[i]);
                assert(hay[i] == pb[i]);
                assert(pb[i] == prefix[i] as u8);
                assert(mb[0] == path[0] as u8);
            } else if i <= 7 {
                assert(w[7 - i] == hay[7]);
                assert(hay[7] == pb[7]);
                assert(pb[7] == prefix[7] as u8);
                assert(mb[7 - i] == path[7 - i] as u8);
            } else {
                assert(w[28 - i] == hay[28]);
                assert(hay[28] == pb[28]);
                assert(pb[28] == prefix[28] as u8);
                assert(mb[28 - i] == path[28 - i] as u8);
            }
        }
    }
    story_link_round_trip(name);
    let links = seq![Some(link)];
    assert(listing_link_ok(links[0]));
    assert(links.drop_last() =~= Seq::<Option<Seq<char>>>::empty());
    assert(links.last()->0 == link);
    assert(story_names_of(links.drop_last()) =~= Seq::<Seq<char>>::empty());
    assert(story_names_of(links) == Seq::<Seq<char>>::empty().push(link_name(link)));
    assert(story_names_of(links) =~= seq![name]);
}

/// Where to go after the first page of a story: nowhere when it names no
/// next page, else the address of the page it names.
pub open spec fn next_page_of(next_url: Seq<char>) -> Option<Seq<char>> {
    if next_url.len() == 0 {
        None
    } else {
        Some("https://www.literotica.com/s/"@ + next_url)
    }
}

/// The address of the page after the first one, if there is one.
pub fn next_page_link(next_url: &str) -> (next: Option<String>)
    ensures
        match next {
            Some(u) => next_page_of(next_url@) == Some(u@),
            None => next_page_of(next_url@) is None,
        },
{
    if next_url.is_empty() {
        None
    } else {
        Some(story_page_url(next_url))
    }
}

/// The text of a story page: the texts of its paragraphs (`p` elements in
/// the article panel) joined with line breaks.
pub open spec fn page_text_of(source: Seq<char>) -> Option<Seq<char>> {
    match selected_texts(source, "div.panel.article p"@) {
        Some(paragraphs) => Some(join_with(paragraphs, "\n"@)),
        None => None,
    }
}

/// Where the "Next Page" buttons of a story page lead, given their links:
/// `Some(None)` when there is no button, `None` when the first has no link.
pub open spec fn next_from_links(links: Seq<Option<Seq<char>>>) -> Option<Option<Seq<char>>> {
    if links.len() == 0 {
        Some(None)
    } else {
        match links[0] {
            Some(l) => Some(Some("https://www.literotica.com/s/"@ + l)),
            None => None,
        }
    }
}

/// Where a story page's "Next Page" button leads.
pub open spec fn page_next_of(source: Seq<char>) -> Option<Option<Seq<char>>> {
    match selected_attributes(source, "a[title=\"Next Page\"]"@, "href"@) {
        Some(links) => next_from_links(links),
        None => None,
    }
}

/// The text of a story page, `None` only when its query fails.
pub fn page_text(page: &Document) -> (text: Option<String>)
    ensures
        match text {
            Some(t) => page_text_of(page@) == Some(t@),
            None => page_text_of(page@) is None,
        },
{
    match page.select_texts("div.panel.article p") {
        Some(paragraphs) => Some(join_strings(&paragraphs, "\n")),
        None => None,
    }
}

/// The address that the first of a page's "Next Page" buttons leads to,
/// given the buttons' links.
pub fn next_page_from_links(links: &Vec<Option<String>>) -> (next: Option<Option<String>>)
    ensures
        match next {
            Some(Some(u)) => next_from_links(opt_strings_view(links@)) == Some(Some(u@)),
            Some(None) => next_from_links(opt_strings_view(links@)) == Some(None::<Seq<char>>),
            None => next_from_links(opt_strings_view(links@)) is None,
        },
{
    if links.len() == 0 {
        Some(None)
    } else {
        match &links[0] {
            Some(l) => Some(Some(story_page_url(l.as_str()))),
            None => None,
        }
    }
}

/// The address that a story page's "Next Page" button leads to.
pub fn page_next(page: &Document) -> (next: Option<Option<String>>)
    ensures
        match next {
            Some(Some(u)) => page_next_of(page@) == Some(Some(u@)),
            Some(None) => page_next_of(page@) == Some(None::<Seq<char>>),
            None => page_next_of(page@) is None,
        },
{
    match page.select_attributes("a[title=\"Next Page\"]", "href") {
        Some(links) => next_page_from_links(&links),
        None => None,
    }
}

/// A story being fetched page by page: the text gathered so far and the
/// address of the page to fetch next, if any.
pub struct StoryScrape {
    pub text: String,
    pub next: Option<String>,
}

impl StoryScrape {
    /// Starts on a story with its first page and what was read off it.
    /// `None` only when the page's text query fails.
    pub fn begin(first_page: &Document, info: &FirstPageInfo) -> (s: Option<StoryScrape>)
        ensures
            match s {
                Some(s) => {
                    &&& page_text_of(first_page@) == Some(s.text@)
                    &&& match s.next {
                        Some(u) => next_page_of(info.next_url@) == Some(u@),
                        None => next_page_of(info.next_url@) is None,
                    }
                },
                None => page_text_of(first_page@) is None,
            },
    {
        match page_text(first_page) {
            Some(text) => Some(StoryScrape { text, next: next_page_link(info.next_url.as_str()) }),
            None => None,
        }
    }

    /// Whether there is another page to fetch.
    pub fn is_done(&self) -> (done: bool)
        ensures
            done == self.next is None,
    {
        self.next.is_none()
    }

    /// Takes in the page fetched from `self.next`: its text is added to what
    /// was gathered (with nothing in between) and its "Next Page" button,
    /// if any, gives the page after it. `None` when the page cannot be read.
    pub fn advance(self, page: &Document) -> (s: Option<StoryScrape>)
        ensures
            match s {
                Some(s) => {
                    &&& page_text_of(page@) is Some
                    &&& page_next_of(page@) is Some
                    &&& s.text@ == self.text@ + page_text_of(page@)->0
                    &&& match s.next {
                        Some(u) => page_next_of(page@) == Some(Some(u@)),
                        None => page_next_of(page@) == Some(None::<Seq<char>>),
                    }
                },
                None => page_text_of(page@) is None || page_next_of(page@) is None,
            },
    {
        let added = match page_text(page) {
            Some(t) => t,
            None => return None,
        };
        let next = match page_next(page) {
            Some(n) => n,
            None => return None,
        };
        let mut text = self.text;
        text.append(added.as_str());
        Some(StoryScrape { text, next })
    }
}

// ---------------------------------------------------------------------------
// Which stories to fetch

/// What is kept of each story fetched: its author, what its first page
/// says, its name and when it was fetched (seconds since the epoch).
/// `rating` is in hundredths of a point, so a rating of 3.45 is 345.
#[allow(non_snake_case)]
pub struct StoryInfo {
    pub member_id: u32,
    pub member_name: String,
    pub title: String,
    pub description: String,
    pub storyName: String,
    pub tags: Vec<String>,
    pub favorites: u32,
    pub views: u32,
    pub rating: u32,
    pub timeFetched: u64,
}

/// The record of a story whose first page said `info`.
pub fn story_info(info: FirstPageInfo, story_name: String, time_fetched: u64) -> (story: StoryInfo)
    ensures
        story.member_id == info.author_id,
        story.member_name@ == info.author_name@,
        story.title@ == info.title@,
        story.description@ == info.description@,
        story.storyName@ == story_name@,
        strings_view(story.tags@) == strings_view(info.tags@),
        story.favorites == info.favorites,
        story.views == info.views,
        story.rating == info.rating,
        story.timeFetched == time_fetched,
{
    StoryInfo {
        member_id: info.author_id,
        member_name: info.author_name,
        title: info.title,
        description: info.description,
        storyName: story_name,
        tags: info.tags,
        favorites: info.favorites,
        views: info.views,
        rating: info.rating,
        timeFetched: time_fetched,
    }
}

/// The names of the stories already recorded.
pub open spec fn recorded_names(stories: Seq<StoryInfo>) -> Set<Seq<char>> {
    Set::new(|n: Seq<char>| exists|i: int| 0 <= i < stories.len() && stories[i].storyName@ == n)
}

/// The names in `names`, in order, that are not in `known`.
pub open spec fn unknown_names(names: Seq<Seq<char>>, known: Set<Seq<char>>) -> Seq<Seq<char>>
    decreases names.len(),
{
    if names.len() == 0 {
        Seq::empty()
    } else {
        let rest = unknown_names(names.drop_last(), known);
        if known.contains(names.last()) {
            rest
        } else {
            rest.push(names.last())
        }
    }
}

/// Stories already recorded are not fetched again: a name is among the
/// unknown names of a list exactly when the list holds it and it is not
/// known.
pub proof fn unknown_names_law(names: Seq<Seq<char>>, known: Set<Seq<char>>, n: Seq<char>)
    ensures
        unknown_names(names, known).contains(n) <==> names.contains(n) && !known.contains(n),
    decreases names.len(),
{
    if names.len() > 0 {
        let init = names.drop_last();
        let last = names.last();
        unknown_names_law(init, known, n);
        let rest = unknown_names(init, known);
        assert(names.contains(n) <==> init.contains(n) || last == n) by {
            if names.contains(n) {
                let i = choose|i: int| 0 <= i < names.len() && names[i] == n;
                if i < names.len() - 1 {
                    assert(init[i] == n);
                }
            }
            if init.contains(n) {
                let i = choose|i: int| 0 <= i < init.len() && init[i] == n;
                assert(names[i] == n);
            }
            if last == n {
                assert(names[names.len() - 1] == n);
            }
        }
        if known.contains(last) {
            assert(unknown_names(names, known) == rest);
        } else {
            assert(unknown_names(names, known) == rest.push(last));
            assert(rest.push(last).contains(n) <==> rest.contains(n) || last == n) by {
                if rest.push(last).contains(n) {
                    let i = choose|i: int| 0 <= i < rest.len() + 1 && rest.push(last)[i] == n;
                    if i < rest.len() {
                        assert(rest[i] == n);
                    }
                }
                if rest.contains(n) {
                    let i = choose|i: int| 0 <= i < rest.len() && rest[i] == n;
                    assert(rest.push(last)[i] == n);
                }
                if last == n {
                    assert(rest.push(last)[rest.len() as int] == n);
                }
            }
        }
    }
}

/// The stories still to fetch are exactly the listed ones that no record
/// names: a name is among them when the list holds it and no story of
/// `recorded` has that name, and only then.
pub proof fn ungrabbed_law(names: Seq<Seq<char>>, recorded: Seq<StoryInfo>, n: Seq<char>)
    ensures
        unknown_names(names, recorded_names(recorded)).contains(n) <==> names.contains(n) && forall|
            i: int,
        |
            0 <= i < recorded.len() ==> #[trigger] recorded[i].storyName@ != n,
{
    unknown_names_law(names, recorded_names(recorded), n);
    if recorded_names(recorded).contains(n) {
        let i = choose|i: int| 0 <= i < recorded.len() && recorded[i].storyName@ == n;
        assert(recorded[i].storyName@ == n);
    }
    if exists|i: int| 0 <= i < recorded.len() && #[trigger] recorded[i].storyName@ == n {
        let i = choose|i: int| 0 <= i < recorded.len() && #[trigger] recorded[i].storyName@ == n;
        assert(recorded_names(recorded).contains(n));
    }
}

/// The stories of `story_list`, in order, that no record of `recorded`
/// names: those that still have to be fetched.
pub fn ungrabbed_stories(story_list: &Vec<String>, recorded: &Vec<StoryInfo>) -> (todo: Vec<String>)
    ensures
        strings_view(todo@) == unknown_names(strings_view(story_list@), recorded_names(recorded@)),
        forall|j: int, i: int|
            0 <= j < todo@.len() && 0 <= i < recorded@.len() ==> #[trigger] todo@[j]@
                != #[trigger] recorded@[i].storyName@,
        forall|k: int|
            0 <= k < story_list@.len() && (forall|i: int|
                0 <= i < recorded@.len() ==> #[trigger] recorded@[i].storyName@
                    != story_list@[k]@) ==> exists|j: int|
                0 <= j < todo@.len() && #[trigger] todo@[j]@ == #[trigger] story_list@[k]@,
{
    let mut known = StringHashSet::new();
    for i in 0..recorded.len()
        invariant
            forall|n: Seq<char>| #[trigger]
                known@.contains(n) <==> exists|j: int|
                    0 <= j < i && recorded@[j].storyName@ == n,
    {
        known.insert(recorded[i].storyName.clone());
    }
    assert(known@ =~= recorded_names(recorded@));
    let ghost names = strings_view(story_list@);
    let mut todo: Vec<String> = Vec::new();
    assert(names.take(0) =~= Seq::<Seq<char>>::empty());
    for i in 0..story_list.len()
        invariant
            names == strings_view(story_list@),
            known@ == recorded_names(recorded@),
            strings_view(todo@) == unknown_names(names.take(i as int), known@),
    {
        assert(names.take(i + 1).drop_last() =~= names.take(i as int));
        if !known.contains(story_list[i].as_str()) {
            let ghost before = todo@;
            todo.push(story_list[i].clone());
            assert(strings_view(todo@) =~= strings_view(before).push(names[i as int]));
        }
    }
    assert(names.take(names.len() as int) =~= names);
    proof {
        let result = strings_view(todo@);
        assert forall|j: int, i: int|
            0 <= j < todo@.len() && 0 <= i < recorded@.len() implies #[trigger] todo@[j]@
            != #[trigger] recorded@[i].storyName@ by {
            ungrabbed_law(names, recorded@, todo@[j]@);
            assert(result[j] == todo@[j]@);
            assert(result.contains(todo@[j]@));
        }
        assert forall|k: int|
            0 <= k < story_list@.len() && (forall|i: int|
                0 <= i < recorded@.len() ==> #[trigger] recorded@[i].storyName@
                    != story_list@[k]@) implies exists|j: int|
            0 <= j < todo@.len() && #[trigger] todo@[j]@ == #[trigger] story_list@[k]@ by {
            let n = story_list@[k]@;
            assert(names[k] == n);
            assert(names.contains(n));
            ungrabbed_law(names, recorded@, n);
            let j = choose|j: int| 0 <= j < result.len() && result[j] == n;
            assert(todo@[j]@ == n);
        }
    }
    todo
}

/// How many records are gathered between two saves of the records.
pub const CHECKPOINT_EVERY: usize = 5000;

/// Whether the records are saved once this many have been gathered.
pub fn checkpoint_due(count: usize) -> (due: bool)
    ensures
        due == (count % CHECKPOINT_EVERY == 0),
{
    count % CHECKPOINT_EVERY == 0
}

} // verus!
