//! Searching for tabs: the search URL, the reading of result pages, and the decisions of the
//! page-by-page search.
use vstd::prelude::*;

use crate::network::{encode_string, url_argument};
use crate::patterns::{group_string, group_text, regex_all_captures, regex_captures_all, DATA_REGEX};
use crate::tab_scraper::{data_type_or_unknown, type_named_by_group};
use crate::text::{decimal, decimal_u8, from_chars, parse_u32, parse_u32_spec, push_all, to_chars};
use crate::types::{get_data_type, lemma_no_empty_label, BasicSongData, BasicSongView, DataSetType};

verus! {

/// The address of the search, to which the encoded query and the page number are appended.
pub const BASE_SEARCH_URL: &'static str = "https://www.ultimate-guitar.com/search.php?search_type=title&value=";

/// The address of page `page` of the results for `query`.
pub open spec fn search_url_of(query: Seq<char>, page: u8) -> Seq<char> {
    BASE_SEARCH_URL@ + url_argument(query) + "&page="@ + decimal(
        page as nat,
    )
}

/// The address of page `page` of the results for `query`.
pub fn search_url(query: &str, page: u8) -> (r: String)
    ensures
        r@ == search_url_of(query@, page),
{
    let mut url = to_chars(BASE_SEARCH_URL);
    let encoded = encode_string(query);
    let e = to_chars(encoded.as_str());
    push_all(&mut url, e.as_slice());
    let p = to_chars("&page=");
    push_all(&mut url, p.as_slice());
    let d = decimal_u8(page);
    push_all(&mut url, d.as_slice());
    from_chars(url.as_slice())
}

/// Whether a failed request for a result page failed because the page does not exist
/// (HTTP status 404), which ends the results rather than the search.
pub fn is_page_missing(status_code: Option<u16>) -> (b: bool)
    ensures
        b == (status_code == Some(404u16)),
{
    match status_code {
        Some(c) => c == 404,
        None => false,
    }
}

/// One entry of a result page, with its rating as the text the page gives for it.
#[derive(Debug, PartialEq, Default, Clone)]
pub struct SearchHit {
    /// The basic metadata of the tab
    pub basic_data: BasicSongData,
    /// Number of ratings given by users
    pub rating_count: u32,
    /// The rating (0.0 to 5.0) as written in the page
    pub rating: String,
}

/// What a `SearchHit` holds, with its strings as character sequences.
pub struct SearchHitView {
    pub basic_data: BasicSongView,
    pub rating_count: u32,
    pub rating: Seq<char>,
}

impl View for SearchHit {
    type V = SearchHitView;

    open spec fn view(&self) -> SearchHitView {
        SearchHitView {
            basic_data: self.basic_data@,
            rating_count: self.rating_count,
            rating: self.rating@,
        }
    }
}

/// An entry read out of the capture groups of `DATA_REGEX`: tab ID, song ID, title, artist,
/// type label, vote count, rating and link are groups one to eight. Title and artist are
/// taken as they stand. An ID or vote count that is not a number spoils the entry.
pub open spec fn search_hit_from(caps: Seq<Option<Seq<char>>>) -> Option<SearchHitView> {
    match (
        parse_u32_spec(group_text(caps, 2)),
        parse_u32_spec(group_text(caps, 1)),
        parse_u32_spec(group_text(caps, 6)),
    ) {
        (Some(song_id), Some(tab_id), Some(rating_count)) => Some(
            SearchHitView {
                basic_data: BasicSongView {
                    title: group_text(caps, 3),
                    artist: group_text(caps, 4),
                    tab_link: group_text(caps, 8),
                    song_id: song_id,
                    tab_id: tab_id,
                    data_type: data_type_or_unknown(group_text(caps, 5)),
                },
                rating_count: rating_count,
                rating: group_text(caps, 7),
            },
        ),
        _ => None,
    }
}

/// The entries read out of all matches, or `None` when any of them is spoilt.
pub open spec fn search_hits_from(matches: Seq<Seq<Option<Seq<char>>>>) -> Option<
    Seq<SearchHitView>,
> {
    if forall|i: int| 0 <= i < matches.len() ==> #[trigger] search_hit_from(matches[i]) is Some {
        Some(Seq::new(matches.len(), |i: int| search_hit_from(matches[i])->0))
    } else {
        None
    }
}

/// The entries of the result page `h`, or `None` when any of them is spoilt.
pub open spec fn page_hits(h: Seq<char>) -> Option<Seq<SearchHitView>> {
    search_hits_from(regex_all_captures(DATA_REGEX@, h))
}

/// The type of an entry is the one that the whole captured type label (group five) names, and
/// `Unknown` when the label is none of the known ones. Tab ID, song ID and vote count are the
/// numbers in groups one, two and six; title, artist, rating and link are the texts of groups
/// three, four, seven and eight as they stand.
pub proof fn law_hit_type_is_label_type(caps: Seq<Option<Seq<char>>>)
    ensures
        search_hit_from(caps) matches Some(v) ==> {
            &&& type_named_by_group(v.basic_data.data_type, caps, 5)
            &&& parse_u32_spec(group_text(caps, 1)) == Some(v.basic_data.tab_id)
            &&& parse_u32_spec(group_text(caps, 2)) == Some(v.basic_data.song_id)
            &&& parse_u32_spec(group_text(caps, 6)) == Some(v.rating_count)
            &&& v.basic_data.title == group_text(caps, 3)
            &&& v.basic_data.artist == group_text(caps, 4)
            &&& v.rating == group_text(caps, 7)
            &&& v.basic_data.tab_link == group_text(caps, 8)
        },
        search_hit_from(caps) is Some <==> {
            &&& parse_u32_spec(group_text(caps, 1)) is Some
            &&& parse_u32_spec(group_text(caps, 2)) is Some
            &&& parse_u32_spec(group_text(caps, 6)) is Some
        },
{
    lemma_no_empty_label();
}

/// Each entry of a result page has one match of `DATA_REGEX`, and its type is the one that
/// the type label captured by that match names.
pub proof fn law_page_hit_types_are_label_types(h: Seq<char>)
    ensures
        page_hits(h) matches Some(hs) ==> {
            &&& hs.len() == regex_all_captures(DATA_REGEX@, h).len()
            &&& forall|i: int|
                0 <= i < hs.len() ==> type_named_by_group(
                    #[trigger] hs[i].basic_data.data_type,
                    regex_all_captures(DATA_REGEX@, h)[i],
                    5,
                )
        },
{
    let all = regex_all_captures(DATA_REGEX@, h);
    if let Some(hs) = page_hits(h) {
        assert forall|i: int| 0 <= i < hs.len() implies type_named_by_group(
            #[trigger] hs[i].basic_data.data_type,
            all[i],
            5,
        ) by {
            assert(search_hit_from(all[i]) is Some);
            law_hit_type_is_label_type(all[i]);
        }
    }
}

/// The views of a sequence of entries.
pub open spec fn hit_views(v: Seq<SearchHit>) -> Seq<SearchHitView> {
    v.map_values(|h: SearchHit| h@)
}

/// The views of an optional sequence of entries.
pub open spec fn hits_view(r: Option<Vec<SearchHit>>) -> Option<Seq<SearchHitView>> {
    match r {
        Some(v) => Some(hit_views(v@)),
        None => None,
    }
}

/// An entry read out of the capture groups of one match of `DATA_REGEX`.
pub fn search_hit_from_captures(caps: &Vec<Option<String>>) -> (r: Option<SearchHit>)
    ensures
        match r {
            Some(h) => search_hit_from(caps.deep_view()) == Some(h@),
            None => search_hit_from(caps.deep_view()) is None,
        },
{
    let song_text = to_chars(group_string(caps, 2).as_str());
    let song_id = match parse_u32(song_text.as_slice()) {
        Some(i) => i,
        None => return None,
    };
    let tab_text = to_chars(group_string(caps, 1).as_str());
    let tab_id = match parse_u32(tab_text.as_slice()) {
        Some(i) => i,
        None => return None,
    };
    let count_text = to_chars(group_string(caps, 6).as_str());
    let rating_count = match parse_u32(count_text.as_slice()) {
        Some(i) => i,
        None => return None,
    };
    let type_label = group_string(caps, 5);
    let data_type = match get_data_type(type_label.as_str()) {
        Ok(t) => t,
        Err(_) => DataSetType::Unknown,
    };
    Some(
        SearchHit {
            basic_data: BasicSongData {
                title: group_string(caps, 3),
                artist: group_string(caps, 4),
                tab_link: group_string(caps, 8),
                song_id,
                tab_id,
                data_type,
            },
            rating_count,
            rating: group_string(caps, 7),
        },
    )
}

/// The entries read out of all matches of `DATA_REGEX` in a result page, or `None` when any
/// of them is spoilt.
pub fn unwrap_results(matches: &Vec<Vec<Option<String>>>) -> (r: Option<Vec<SearchHit>>)
    ensures
        hits_view(r) == search_hits_from(matches.deep_view()),
{
    let ghost m = matches.deep_view();
    let mut results: Vec<SearchHit> = Vec::new();
    let mut i: usize = 0;
    while i < matches.len()
        invariant
            i <= matches@.len(),
            m == matches.deep_view(),
            m.len() == matches@.len(),
            forall|j: int| 0 <= j < i ==> #[trigger] search_hit_from(m[j]) is Some,
            hit_views(results@) =~= Seq::new(i as nat, |j: int| search_hit_from(m[j])->0),
        decreases matches@.len() - i,
    {
        assert(m[i as int] == matches@[i as int].deep_view());
        match search_hit_from_captures(&matches[i]) {
            Some(h) => {
                let ghost before = results@;
                results.push(h);
                assert(hit_views(results@) =~= hit_views(before).push(h@));
            },
            None => {
                return None;
            },
        }
        i = i + 1;
    }
    Some(results)
}

/// The entries of a result page, or `None` when any of them is spoilt.
pub fn search_page_hits(raw_html: &str) -> (r: Option<Vec<SearchHit>>)
    ensures
        hits_view(r) == page_hits(raw_html@),
{
    let matches = regex_captures_all(DATA_REGEX, raw_html);
    unwrap_results(&matches)
}

/// A result page ends the search: it failed, or it has no entries.
pub open spec fn page_stops<T, E>(o: Result<Seq<T>, E>) -> bool {
    match o {
        Ok(r) => r.len() == 0,
        Err(_) => true,
    }
}

/// The outcome of a search over result pages served in order (`pages[0]` is page 1),
/// fetching at most `max_pages` of them: the entries of the pages joined in page order, up to
/// the first page without entries; or the error of the first page that failed, which drops
/// the entries gathered before it.
pub open spec fn search_outcome<T, E>(pages: Seq<Result<Seq<T>, E>>, max_pages: nat) -> Result<
    Seq<T>,
    E,
>
    decreases pages.len(),
{
    if max_pages == 0 || pages.len() == 0 {
        Ok(Seq::empty())
    } else {
        match pages[0] {
            Err(e) => Err(e),
            Ok(r) => if r.len() == 0 {
                Ok(Seq::empty())
            } else {
                match search_outcome(pages.drop_first(), (max_pages - 1) as nat) {
                    Ok(rest) => Ok(r + rest),
                    Err(e) => Err(e),
                }
            },
        }
    }
}

/// The entries of pages that all succeeded, joined in page order.
pub open spec fn joined<T, E>(pages: Seq<Result<Seq<T>, E>>) -> Seq<T>
    decreases pages.len(),
{
    if pages.len() == 0 {
        Seq::empty()
    } else {
        match pages[0] {
            Ok(r) => r + joined(pages.drop_first()),
            Err(_) => joined(pages.drop_first()),
        }
    }
}

/// The view of a page outcome.
pub open spec fn outcome_view<T, E>(o: Result<Vec<T>, E>) -> Result<Seq<T>, E> {
    match o {
        Ok(v) => Ok(v@),
        Err(e) => Err(e),
    }
}

/// What a search has seen: the outcome of each page fetched so far, in order, and the number
/// of pages it fetches at most.
pub struct SearchProgressView<T, E> {
    pub served: Seq<Result<Seq<T>, E>>,
    pub max_pages: nat,
}

/// A search is over when it fetched all the pages it may, or when its last page ended it.
pub open spec fn search_is_over<T, E>(v: SearchProgressView<T, E>) -> bool {
    v.served.len() >= v.max_pages || (v.served.len() > 0 && page_stops(v.served.last()))
}

/// Adding the outcome of one more page to pages that all had entries.
proof fn lemma_search_outcome_push<T, E>(
    served: Seq<Result<Seq<T>, E>>,
    max_pages: nat,
    o: Result<Seq<T>, E>,
)
    requires
        served.len() < max_pages,
        forall|i: int| 0 <= i < served.len() ==> !page_stops(#[trigger] served[i]),
    ensures
        search_outcome(served, max_pages) is Ok,
        search_outcome(served.push(o), max_pages) == (match o {
            Err(e) => Err(e),
            Ok(r) => Ok(search_outcome(served, max_pages)->Ok_0 + r),
        }),
    decreases served.len(),
{
    if served.len() == 0 {
        assert(served.push(o)[0] == o);
        assert(served.push(o).drop_first() =~= Seq::<Result<Seq<T>, E>>::empty());
        assert(search_outcome(served, max_pages) == Ok::<Seq<T>, E>(Seq::empty()));
        if let Ok(r) = o {
            assert(Seq::<T>::empty() + r =~= r);
            if r.len() == 0 {
                assert(r =~= Seq::<T>::empty());
            } else {
                assert(search_outcome(served.push(o).drop_first(), (max_pages - 1) as nat) == Ok::<
                    Seq<T>,
                    E,
                >(Seq::empty()));
                assert(r + Seq::<T>::empty() =~= r);
            }
        }
    } else {
        let tail = served.drop_first();
        assert forall|i: int| 0 <= i < tail.len() implies !page_stops(#[trigger] tail[i]) by {
            assert(tail[i] == served[i + 1]);
        }
        lemma_search_outcome_push(tail, (max_pages - 1) as nat, o);
        assert(served.push(o).drop_first() =~= tail.push(o));
        assert(served.push(o)[0] == served[0]);
        assert(!page_stops(served[0]));
        let r0 = served[0]->Ok_0;
        let rest = search_outcome(tail, (max_pages - 1) as nat)->Ok_0;
        assert(search_outcome(served, max_pages) == Ok::<Seq<T>, E>(r0 + rest));
        if let Ok(r) = o {
            assert(search_outcome(tail.push(o), (max_pages - 1) as nat) == Ok::<Seq<T>, E>(
                rest + r,
            ));
            assert(r0 + (rest + r) =~= (r0 + rest) + r);
        }
    }
}

/// The outcome of a whole search: once the search is over, the pages it fetched (the first
/// pages as they were served) decide the outcome, and the pages it did not fetch play no part.
pub proof fn law_search_outcome_of_fetched_pages<T, E>(
    pages: Seq<Result<Seq<T>, E>>,
    v: SearchProgressView<T, E>,
)
    requires
        v.served.len() <= pages.len(),
        forall|i: int| 0 <= i < v.served.len() ==> #[trigger] v.served[i] == pages[i],
        search_is_over(v),
    ensures
        search_outcome(v.served, v.max_pages) == search_outcome(pages, v.max_pages),
    decreases v.served.len(),
{
    if v.max_pages > 0 && v.served.len() > 0 {
        assert(v.served[0] == pages[0]);
        if !page_stops(v.served[0]) {
            let tail = SearchProgressView {
                served: v.served.drop_first(),
                max_pages: (v.max_pages - 1) as nat,
            };
            if v.served.len() == 1 {
                assert(v.served.last() == v.served[0]);
            } else {
                assert(tail.served.last() == v.served.last());
            }
            assert forall|i: int| 0 <= i < tail.served.len() implies #[trigger] tail.served[i]
                == pages.drop_first()[i] by {
                assert(tail.served[i] == v.served[i + 1]);
            }
            law_search_outcome_of_fetched_pages(pages.drop_first(), tail);
        }
    }
}

/// When the first `k` pages have entries, and either `k` is the page limit or page `k + 1` has
/// none, a search gives the entries of pages 1 to `k` joined in page order.
pub proof fn law_search_joins_leading_pages<T, E>(
    pages: Seq<Result<Seq<T>, E>>,
    max_pages: nat,
    k: nat,
)
    requires
        k <= max_pages,
        k <= pages.len(),
        forall|i: int| 0 <= i < k ==> !page_stops(#[trigger] pages[i]),
        k == max_pages || (k < pages.len() && pages[k as int] == Ok::<Seq<T>, E>(Seq::empty())),
    ensures
        search_outcome(pages, max_pages) == Ok::<Seq<T>, E>(joined(pages.take(k as int))),
    decreases k,
{
    if k == 0 {
        assert(pages.take(0) =~= Seq::<Result<Seq<T>, E>>::empty());
    } else {
        let tail = pages.drop_first();
        assert forall|i: int| 0 <= i < k - 1 implies !page_stops(#[trigger] tail[i]) by {
            assert(tail[i] == pages[i + 1]);
        }
        if k < max_pages {
            assert(tail[k - 1] == pages[k as int]);
        }
        law_search_joins_leading_pages(tail, (max_pages - 1) as nat, (k - 1) as nat);
        assert(pages.take(k as int).drop_first() =~= tail.take(k - 1));
        assert(pages.take(k as int)[0] == pages[0]);
        assert(!page_stops(pages[0]));
    }
}

/// The progress of a search that fetches result pages one after another, from page 1 on, at
/// most `max_pages` of them, and stops at the first page that fails or has no entries.
pub struct SearchProgress<T, E> {
    results: Vec<T>,
    failure: Option<E>,
    fetched: u16,
    max_pages: u8,
    stopped: bool,
    served: Ghost<Seq<Result<Seq<T>, E>>>,
}

impl<T, E> View for SearchProgress<T, E> {
    type V = SearchProgressView<T, E>;

    closed spec fn view(&self) -> SearchProgressView<T, E> {
        SearchProgressView { served: self.served@, max_pages: self.max_pages as nat }
    }
}

impl<T, E> SearchProgress<T, E> {
    /// The entries and the failure held agree with the outcome of the pages seen so far.
    pub closed spec fn well_formed(&self) -> bool {
        &&& self.fetched as nat == self.served@.len()
        &&& self.served@.len() <= self.max_pages
        &&& self.stopped <==> (self.served@.len() > 0 && page_stops(self.served@.last()))
        &&& forall|i: int|
            0 <= i < self.served@.len() - 1 ==> !page_stops(#[trigger] self.served@[i])
        &&& match search_outcome(self.served@, self.max_pages as nat) {
            Ok(rs) => self.results@ == rs && self.failure is None,
            Err(e) => self.failure == Some(e),
        }
    }

    /// A search that has fetched nothing yet and fetches at most `max_pages` pages.
    pub fn new(max_pages: u8) -> (s: Self)
        ensures
            s.well_formed(),
            s@.served == Seq::<Result<Seq<T>, E>>::empty(),
            s@.max_pages == max_pages as nat,
    {
        SearchProgress {
            results: Vec::new(),
            failure: None,
            fetched: 0,
            max_pages,
            stopped: false,
            served: Ghost(Seq::empty()),
        }
    }

    /// The page to fetch next: the one after those seen so far, or `None` when the search is over.
    pub fn next_page(&self) -> (p: Option<u8>)
        requires
            self.well_formed(),
        ensures
            p == (if search_is_over(self@) {
                None::<u8>
            } else {
                Some((self@.served.len() + 1) as u8)
            }),
    {
        if !self.stopped && self.fetched < self.max_pages as u16 {
            Some((self.fetched + 1) as u8)
        } else {
            None
        }
    }

    /// Records the outcome of the page that `next_page` asked for: its entries, or the error
    /// with which fetching or reading it failed.
    pub fn record_page(&mut self, outcome: Result<Vec<T>, E>)
        requires
            old(self).well_formed(),
            !search_is_over(old(self)@),
        ensures
            final(self).well_formed(),
            final(self)@ == (SearchProgressView {
                served: old(self)@.served.push(outcome_view(outcome)),
                max_pages: old(self)@.max_pages,
            }),
    {
        let ghost o = outcome_view(outcome);
        proof {
            lemma_search_outcome_push(self.served@, self.max_pages as nat, o);
        }
        match outcome {
            Ok(found) => {
                if found.len() == 0 {
                    self.stopped = true;
                    assert(self.results@ + found@ =~= self.results@);
                } else {
                    let mut found = found;
                    self.results.append(&mut found);
                }
            },
            Err(e) => {
                self.stopped = true;
                self.failure = Some(e);
            },
        }
        self.fetched = self.fetched + 1;
        self.served = Ghost(self.served@.push(o));
        assert forall|i: int| 0 <= i < self.served@.len() - 1 implies !page_stops(
            #[trigger] self.served@[i],
        ) by {
            assert(self.served@[i] == old(self).served@[i]);
        }
    }

    /// The outcome of the search: the entries gathered, or the error of the page that failed.
    pub fn into_result(self) -> (r: Result<Vec<T>, E>)
        requires
            self.well_formed(),
        ensures
            outcome_view(r) == search_outcome(self@.served, self@.max_pages),
    {
        match self.failure {
            Some(e) => Err(e),
            None => Ok(self.results),
        }
    }
}

} // verus!
