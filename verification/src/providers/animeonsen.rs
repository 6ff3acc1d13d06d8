//! The AnimeOnsen provider: its URLs, and what it makes of the site's pages and
//! API answers.

use std::collections::HashMap;
use vstd::prelude::*;
use vstd::utf8::{decode_utf8, valid_utf8};
use crate::bridge::{
    base64_decode, base64_standard_decode, cookie_value, html_select, html_select_attrs,
    parse_cookie_value, percent_decode, regex_captures_first, regex_first_captures, url_decode,
    utf8_decode,
};
use crate::m3u8::group_at;
use crate::utils::{sort_by_ep_num, sort_episodes};
use crate::providers::{ProviderError, ProviderErrorView, res_view};
use crate::text::{parse_i32, parse_i32_spec, str_eq, trim, trim_seq};
use crate::types::{
    views,
    AnimeEpisode, AnimeEpisodeView, SearchResult, SearchResultView, StreamLink, StreamLinkView,
    SubtitleSource, SubtitleSourceView, SubtitleTrack, SubtitleTrackView,
};

verus! {

pub const HOST: &'static str = "animeonsen.xyz";

pub const TEST_EPISODES_LINK: &'static str = "https://www.animeonsen.xyz/details/d5eRZVtbu86Kwy7E";

pub const TEST_STREAMS_LINK: &'static str = "https://animeonsen.xyz/watch/d5eRZVtbu86Kwy7E?episode=1";

/// The pattern of a show's page URL; group 1 is the show's id.
pub const ID_PATTERN: &'static str = "animeonsen.xyz/details/(.+)/?";

/// The pattern of an episode's page URL; groups 1 and 2 are the show's id and the
/// episode number.
pub const EP_PATTERN: &'static str = "animeonsen.xyz/watch/(.+?)\\?episode=(\\d+)";

/// The selector of the element that holds the search token.
pub const SEARCH_TOKEN_SELECTOR: &'static str = "[name=\"ao-search-token\"]";

/// One hit of the search API.
#[derive(Debug)]
pub struct Hit {
    pub content_title: Option<String>,
    pub content_title_en: Option<String>,
    pub content_title_jp: Option<String>,
    pub content_id: Option<String>,
}

/// The answer of the search API.
#[derive(Debug)]
pub struct SearchReponse {
    pub hits: Option<Vec<Hit>>,
    pub estimated_total_hits: Option<i64>,
    pub query: Option<String>,
    pub limit: Option<i64>,
    pub offset: Option<i64>,
    pub processing_time_ms: Option<i64>,
}

/// One episode in the answer of the episodes API.
#[derive(Debug)]
pub struct Episode {
    pub content_title_episode_en: Option<String>,
    pub content_title_episode_jp: Option<String>,
}

#[derive(Debug)]
pub struct EpisodeClass {
    pub content_title_episode_jp: Option<String>,
    pub content_title_episode_en: Option<String>,
}

/// The subtitle URLs of an episode, by language.
#[derive(Debug)]
pub struct Subtitles {
    pub en_us: Option<String>,
    pub es_la: Option<String>,
    pub pt_br: Option<String>,
}

#[derive(Debug)]
pub struct Metadata {
    pub content_id: Option<String>,
    pub content_title: Option<String>,
    pub content_title_en: Option<String>,
    pub data_type: Option<String>,
    pub is_movie: Option<bool>,
    pub subtitle_support: Option<bool>,
    pub total_episodes: Option<i64>,
    pub next_season: Option<String>,
    pub mal_id: Option<i64>,
    pub episode: Option<(i32, EpisodeClass, HashMap<String, EpisodeClass>)>,
    pub subtitles: Option<Subtitles>,
}

/// Where an episode's video and subtitles are.
#[derive(Debug)]
pub struct Uri {
    pub stream: Option<String>,
    pub subtitles: Option<Subtitles>,
}

/// The answer of the video API.
#[derive(Debug)]
pub struct VideoResponse {
    pub metadata: Option<Metadata>,
    pub uri: Option<Uri>,
}

/// The site's home page, where the tokens are.
pub fn home_url() -> (r: String)
    ensures
        r@ == "https://www."@ + HOST@,
{
    let mut r = String::from_str("https://www.");
    r.append(HOST);
    r
}

/// The search API's URL.
pub fn search_api_url() -> (r: String)
    ensures
        r@ == "https://search."@ + HOST@ + "/indexes/content/search"@,
{
    let mut r = String::from_str("https://search.");
    r.append(HOST);
    r.append("/indexes/content/search");
    r
}

/// The URL of the episode list of the show `id`.
pub fn episodes_api_url(id: &str) -> (r: String)
    ensures
        r@ == "https://api."@ + HOST@ + "/v4/content/"@ + id@ + "/episodes"@,
{
    let mut r = String::from_str("https://api.");
    r.append(HOST);
    r.append("/v4/content/");
    r.append(id);
    r.append("/episodes");
    r
}

/// The URL of the video of episode `episode` of the show `id`.
pub fn video_api_url(id: &str, episode: &str) -> (r: String)
    ensures
        r@ == "https://api."@ + HOST@ + "/v4/content/"@ + id@ + "/video/"@ + episode@,
{
    let mut r = String::from_str("https://api.");
    r.append(HOST);
    r.append("/v4/content/");
    r.append(id);
    r.append("/video/");
    r.append(episode);
    r
}

/// The page that the self test uses: `0` for a show, `1` for an episode.
pub fn get_test_url(which: &str) -> (r: Result<String, ProviderError>)
    ensures
        which@ == "0"@ ==> (r matches Ok(u) && u@ == TEST_EPISODES_LINK@),
        which@ == "1"@ ==> (r matches Ok(u) && u@ == TEST_STREAMS_LINK@),
        which@ != "0"@ && which@ != "1"@ ==> (r matches Err(ProviderError::Unexpected(m))
            && m@ == "Out of bounds."@),
{
    proof {
        reveal_strlit("0");
        reveal_strlit("1");
        assert("0"@[0] != "1"@[0]);
    }
    if str_eq(which, "0") {
        Ok(String::from_str(TEST_EPISODES_LINK))
    } else if str_eq(which, "1") {
        Ok(String::from_str(TEST_STREAMS_LINK))
    } else {
        Err(ProviderError::Unexpected(String::from_str("Out of bounds.")))
    }
}


/// What the home page says of the search token: the token behind `Bearer `, or
/// why there is none.
pub open spec fn search_token_spec(found: Option<Seq<Seq<Option<Seq<char>>>>>) -> Result<
    Seq<char>,
    ProviderErrorView,
> {
    match found {
        None => Err(ProviderErrorView::InvalidPattern),
        Some(rows) => if rows.len() == 0 {
            Err(ProviderErrorView::Unexpected("Failed to find the search token."@))
        } else if rows[0].len() > 0 && rows[0][0] is Some {
            Ok("Bearer "@ + rows[0][0]->0)
        } else {
            Err(
                ProviderErrorView::Unexpected(
                    "Found the search token, but the attr content does not exist..."@,
                ),
            )
        },
    }
}

/// The search token on the home page `html`, as an authorization value.
pub fn search_token_from_html(html: &str) -> (r: Result<String, ProviderError>)
    ensures
        res_view(r) == search_token_spec(
            html_select_attrs(html@, SEARCH_TOKEN_SELECTOR@, seq!["content"@]),
        ),
{
    let attrs = vec![String::from_str("content")];
    assert(attrs.deep_view() =~= seq!["content"@]);
    match html_select(html, SEARCH_TOKEN_SELECTOR, &attrs) {
        None => Err(ProviderError::InvalidPattern),
        Some(rows) => {
            if rows.len() == 0 {
                Err(ProviderError::Unexpected(String::from_str("Failed to find the search token.")))
            } else if rows[0].len() > 0 && rows[0][0].is_some() {
                let mut t = String::from_str("Bearer ");
                match &rows[0][0] {
                    Some(v) => t.append(v.as_str()),
                    None => {},
                }
                Ok(t)
            } else {
                Err(
                    ProviderError::Unexpected(
                        String::from_str(
                            "Found the search token, but the attr content does not exist...",
                        ),
                    ),
                )
            }
        },
    }
}

/// Each byte one higher.
pub open spec fn shifted(b: Seq<u8>) -> Seq<u8> {
    b.map_values(|x: u8| (x + 1) as u8)
}

/// The API token that the bytes `b` of the cookie stand for.
pub open spec fn token_spec(b: Seq<u8>) -> Result<Seq<char>, ProviderErrorView> {
    if valid_utf8(shifted(b)) {
        Ok("Bearer "@ + decode_utf8(shifted(b)))
    } else {
        Err(ProviderErrorView::InvalidUtf8)
    }
}

/// The API token from the decoded cookie bytes: each byte is one below the
/// token's UTF-8.
pub fn token_from_decoded(bytes: &Vec<u8>) -> (r: Result<String, ProviderError>)
    requires
        forall|i: int| 0 <= i < bytes@.len() ==> bytes@[i] < 255,
    ensures
        res_view(r) == token_spec(bytes@),
{
    let mut up: Vec<u8> = Vec::new();
    let mut i: usize = 0;
    while i < bytes.len()
        invariant
            i <= bytes.len(),
            forall|k: int| 0 <= k < bytes@.len() ==> bytes@[k] < 255,
            up@ =~= shifted(bytes@.take(i as int)),
        decreases bytes.len() - i,
    {
        up.push(bytes[i] + 1);
        i = i + 1;
    }
    assert(bytes@.take(bytes.len() as int) =~= bytes@);
    match utf8_decode(up.as_slice()) {
        Some(s) => {
            let mut t = String::from_str("Bearer ");
            t.append(s.as_str());
            Ok(t)
        },
        None => Err(ProviderError::InvalidUtf8),
    }
}

/// No byte is 255, where adding one overflows.
pub open spec fn no_max_byte(b: Seq<u8>) -> bool {
    forall|i: int| 0 <= i < b.len() ==> b[i] < 255
}

/// The API token that the `Set-Cookie` value `header` carries: the cookie's value,
/// percent-decoded, then base64-decoded, each byte one higher, read as UTF-8.
/// `None` where the tool does not accept the cookie: its base64 does not decode,
/// or a decoded byte is 255.
pub open spec fn api_token_spec(header: Seq<char>) -> Option<Result<Seq<char>, ProviderErrorView>> {
    match cookie_value(header) {
        None => Some(Err(ProviderErrorView::Unexpected("The cookie does not parse."@))),
        Some(v) => match percent_decode(v) {
            None => Some(Err(ProviderErrorView::InvalidUtf8)),
            Some(d) => match base64_standard_decode(d) {
                None => None,
                Some(b) => if no_max_byte(b) {
                    Some(token_spec(b))
                } else {
                    None
                },
            },
        },
    }
}

/// The API token that the `Set-Cookie` value `header` carries.
pub fn api_token_from_cookie(header: &str) -> (r: Option<Result<String, ProviderError>>)
    ensures
        r is Some == api_token_spec(header@) is Some,
        r matches Some(t) ==> res_view(t) == api_token_spec(header@)->0,
{
    let v = match parse_cookie_value(header) {
        Some(v) => v,
        None => {
            return Some(Err(ProviderError::Unexpected(String::from_str("The cookie does not parse."))));
        },
    };
    let d = match url_decode(v.as_str()) {
        Some(d) => d,
        None => {
            return Some(Err(ProviderError::InvalidUtf8));
        },
    };
    let b = match base64_decode(d.as_str()) {
        Some(b) => b,
        None => {
            return None;
        },
    };
    assert(b.deep_view() =~= b@);
    assert(cookie_value(header@) == Some(v@));
    assert(percent_decode(v@) == Some(d@));
    assert(base64_standard_decode(d@) == Some(b@));
    let mut i: usize = 0;
    while i < b.len()
        invariant
            i <= b.len(),
            forall|k: int| 0 <= k < i ==> b@[k] < 255,
            cookie_value(header@) == Some(v@),
            percent_decode(v@) == Some(d@),
            base64_standard_decode(d@) == Some(b@),
        decreases b.len() - i,
    {
        if b[i] == 255 {
            assert(b@[i as int] == 255);
            assert(!no_max_byte(b@));
            return None;
        }
        i = i + 1;
    }
    Some(token_from_decoded(&b))
}

/// Each hit has a title and an id, which the tool needs.
pub open spec fn search_response_complete(resp: &SearchReponse) -> bool {
    resp.hits matches Some(hs) ==> forall|i: int|
        0 <= i < hs@.len() ==> (#[trigger] hs@[i]).content_title is Some && hs@[i].content_id is Some
}

/// The search result for a hit: its trimmed title and its page.
pub open spec fn hit_result(h: Hit) -> SearchResultView {
    SearchResultView {
        title: trim_seq(h.content_title->0@),
        url: "https://"@ + HOST@ + "/details/"@ + h.content_id->0@,
        provider: "animeonsen"@,
    }
}

/// Whether each hit has a title and an id.
pub fn search_response_is_complete(resp: &SearchReponse) -> (b: bool)
    ensures
        b == search_response_complete(resp),
{
    match &resp.hits {
        None => true,
        Some(hs) => {
            let mut i: usize = 0;
            while i < hs.len()
                invariant
                    i <= hs.len(),
                    resp.hits == Some(*hs),
                    forall|k: int|
                        0 <= k < i ==> (#[trigger] hs@[k]).content_title is Some
                            && hs@[k].content_id is Some,
                decreases hs.len() - i,
            {
                if hs[i].content_title.is_none() || hs[i].content_id.is_none() {
                    assert(!(hs@[i as int].content_title is Some && hs@[i as int].content_id is Some));
                    return false;
                }
                i = i + 1;
            }
            true
        },
    }
}

/// The search results in the search API's answer.
pub fn search_results_from_response(resp: &SearchReponse) -> (r: Result<
    Vec<SearchResult>,
    ProviderError,
>)
    requires
        search_response_complete(resp),
    ensures
        resp.hits is None ==> (r matches Err(ProviderError::Unexpected(m)) && m@
            == "Unexpected API response."@),
        resp.hits matches Some(hs) ==> (r matches Ok(v) && views(v@) == hs@.map_values(
            |h: Hit| hit_result(h),
        )),
{
    match &resp.hits {
        None => Err(ProviderError::Unexpected(String::from_str("Unexpected API response."))),
        Some(hs) => {
            let mut out: Vec<SearchResult> = Vec::new();
            let mut i: usize = 0;
            while i < hs.len()
                invariant
                    i <= hs.len(),
                    resp.hits == Some(*hs),
                    search_response_complete(resp),
                    views(out@) =~= hs@.take(i as int).map_values(|h: Hit| hit_result(h)),
                decreases hs.len() - i,
            {
                let h = &hs[i];
                assert(h.content_title is Some && h.content_id is Some);
                let title = match &h.content_title {
                    Some(t) => trim(t.as_str()),
                    None => String::new(),
                };
                let mut url = String::from_str("https://");
                url.append(HOST);
                url.append("/details/");
                match &h.content_id {
                    Some(id) => url.append(id.as_str()),
                    None => {},
                }
                let ghost before = out@;
                out.push(SearchResult { title, url, provider: String::from_str("animeonsen") });
                assert(views(out@) =~= views(before).push(hit_result(*h)));
                assert(hs@.take(i + 1).map_values(|h: Hit| hit_result(h)) =~= hs@.take(
                    i as int,
                ).map_values(|h: Hit| hit_result(h)).push(hit_result(hs@[i as int])));
                i = i + 1;
            }
            assert(hs@.take(hs.len() as int) =~= hs@);
            Ok(out)
        },
    }
}


/// Group `i` of the first match of a pattern, or why there is none: the pattern
/// does not compile or lacks the group, or nothing matches (`missing` says so).
pub open spec fn capture_group(
    found: Option<Option<Seq<Option<Seq<char>>>>>,
    i: int,
    missing: Seq<char>,
) -> Result<Seq<char>, ProviderErrorView> {
    match found {
        None => Err(ProviderErrorView::InvalidPattern),
        Some(None) => Err(ProviderErrorView::Unexpected(missing)),
        Some(Some(g)) => match group_at(g, i) {
            Some(v) => Ok(v),
            None => Err(ProviderErrorView::InvalidPattern),
        },
    }
}

fn group_or_error(g: &Vec<Option<String>>, i: usize) -> (r: Result<String, ProviderError>)
    ensures
        res_view(r) == (match group_at(g.deep_view(), i as int) {
            Some(v) => Ok(v),
            None => Err(ProviderErrorView::InvalidPattern),
        }),
{
    if i < g.len() {
        match &g[i] {
            Some(v) => Ok(v.clone()),
            None => Err(ProviderError::InvalidPattern),
        }
    } else {
        Err(ProviderError::InvalidPattern)
    }
}

/// The id of the show whose page is `url`.
pub fn content_id_from_url(url: &str) -> (r: Result<String, ProviderError>)
    ensures
        res_view(r) == capture_group(
            regex_first_captures(ID_PATTERN@, url@),
            1,
            "Couldn't find an id in the url."@,
        ),
{
    match regex_captures_first(ID_PATTERN, url) {
        None => Err(ProviderError::InvalidPattern),
        Some(None) => Err(
            ProviderError::Unexpected(String::from_str("Couldn't find an id in the url.")),
        ),
        Some(Some(g)) => group_or_error(&g, 1),
    }
}

/// Groups 1 and 2 of the first match of a pattern, or why there are none.
pub open spec fn capture_pair(found: Option<Option<Seq<Option<Seq<char>>>>>, missing: Seq<char>) -> Result<
    (Seq<char>, Seq<char>),
    ProviderErrorView,
> {
    match capture_group(found, 1, missing) {
        Err(e) => Err(e),
        Ok(a) => match capture_group(found, 2, missing) {
            Err(e) => Err(e),
            Ok(b) => Ok((a, b)),
        },
    }
}

/// The show id and the episode number in the episode page URL `url`.
pub fn episode_ids_from_url(url: &str) -> (r: Result<(String, String), ProviderError>)
    ensures
        capture_pair(regex_first_captures(EP_PATTERN@, url@), "Couldn't find an id in the url."@)
            == (match r {
            Ok(p) => Ok((p.0@, p.1@)),
            Err(e) => Err(e@),
        }),
{
    match regex_captures_first(EP_PATTERN, url) {
        None => Err(ProviderError::InvalidPattern),
        Some(None) => Err(
            ProviderError::Unexpected(String::from_str("Couldn't find an id in the url.")),
        ),
        Some(Some(g)) => {
            let a = match group_or_error(&g, 1) {
                Ok(a) => a,
                Err(e) => {
                    return Err(e);
                },
            };
            let b = match group_or_error(&g, 2) {
                Ok(b) => b,
                Err(e) => {
                    return Err(e);
                },
            };
            Ok((a, b))
        },
    }
}

/// The episode that an entry `number: episode` of the episodes API stands for, in
/// the show `id`: titled in English, else in Japanese, else not at all; numbered
/// by `number`, or -1 where that is no number.
pub open spec fn episode_entry_view(id: Seq<char>, number: Seq<char>, e: Episode) -> AnimeEpisodeView {
    AnimeEpisodeView {
        title: match e.content_title_episode_en {
            Some(t) => t@,
            None => match e.content_title_episode_jp {
                Some(t) => t@,
                None => Seq::empty(),
            },
        },
        url: "https://"@ + HOST@ + "/watch/"@ + id + "?episode="@ + number,
        ep_num: match parse_i32_spec(number) {
            Some(n) => n,
            None => -1i32,
        },
        provider: "animeonsen"@,
    }
}

/// The episodes of an entry list.
pub open spec fn entries_view(id: Seq<char>, entries: Seq<(String, Episode)>) -> Seq<AnimeEpisodeView> {
    entries.map_values(|e: (String, Episode)| episode_entry_view(id, e.0@, e.1))
}

/// An episode is titled with its English title where it has one, else with its
/// Japanese title, else with no title; its number is the entry's number where
/// that parses, else -1; and it is an AnimeOnsen episode.
pub proof fn lemma_episode_entry(id: Seq<char>, number: Seq<char>, e: Episode)
    ensures
        e.content_title_episode_en matches Some(t) ==> episode_entry_view(id, number, e).title
            == t@,
        e.content_title_episode_en is None ==> (e.content_title_episode_jp matches Some(t)
            ==> episode_entry_view(id, number, e).title == t@),
        e.content_title_episode_en is None && e.content_title_episode_jp is None
            ==> episode_entry_view(id, number, e).title.len() == 0,
        parse_i32_spec(number) matches Some(n) ==> episode_entry_view(id, number, e).ep_num == n,
        parse_i32_spec(number) is None ==> episode_entry_view(id, number, e).ep_num == -1,
        episode_entry_view(id, number, e).provider == "animeonsen"@,
{
}

/// The episode for one entry of the episodes API.
pub fn episode_from_entry(id: &str, number: &str, e: &Episode) -> (r: AnimeEpisode)
    ensures
        r@ == episode_entry_view(id@, number@, *e),
        e.content_title_episode_en matches Some(t) ==> r.title@ == t@,
        e.content_title_episode_en is None ==> (e.content_title_episode_jp matches Some(t)
            ==> r.title@ == t@),
        e.content_title_episode_en is None && e.content_title_episode_jp is None
            ==> r.title@.len() == 0,
{
    let title = match &e.content_title_episode_en {
        Some(t) => t.clone(),
        None => match &e.content_title_episode_jp {
            Some(t) => t.clone(),
            None => String::new(),
        },
    };
    let ep_num = match parse_i32(number) {
        Some(n) => n,
        None => -1,
    };
    let mut url = String::from_str("https://");
    url.append(HOST);
    url.append("/watch/");
    url.append(id);
    url.append("?episode=");
    url.append(number);
    AnimeEpisode { title, url, ep_num, provider: String::from_str("animeonsen") }
}

/// The episodes of the show `id` that the entries of the episodes API list,
/// sorted by number; entries with equal numbers keep the order they came in (the
/// order in which the answer's map was walked).
pub fn episodes_from_response(id: &str, entries: Vec<(String, Episode)>) -> (r: Vec<AnimeEpisode>)
    ensures
        views(r@) == sort_by_ep_num(entries_view(id@, entries@)),
{
    let mut eps: Vec<AnimeEpisode> = Vec::new();
    let mut i: usize = 0;
    while i < entries.len()
        invariant
            i <= entries.len(),
            views(eps@) =~= entries_view(id@, entries@.take(i as int)),
        decreases entries.len() - i,
    {
        let ep = episode_from_entry(id, entries[i].0.as_str(), &entries[i].1);
        let ghost before = views(eps@);
        let ghost ev = ep@;
        eps.push(ep);
        assert(views(eps@) =~= before.push(ev));
        assert(entries_view(id@, entries@.take(i + 1)) =~= entries_view(id@, entries@.take(i as int)).push(
            episode_entry_view(id@, entries@[i as int].0@, entries@[i as int].1),
        ));
        i = i + 1;
    }
    assert(entries@.take(entries.len() as int) =~= entries@);
    sort_episodes(eps)
}

/// The video API's answer names a stream, which the tool needs.
pub open spec fn video_response_complete(resp: &VideoResponse) -> bool {
    resp.uri matches Some(u) && u.stream is Some
}

/// Whether the video API's answer names a stream.
pub fn video_response_is_complete(resp: &VideoResponse) -> (b: bool)
    ensures
        b == video_response_complete(resp),
{
    match &resp.uri {
        Some(u) => u.stream.is_some(),
        None => false,
    }
}

/// The track for a subtitle URL in language `lang`, if there is one.
pub open spec fn subtitle_track(lang: Seq<char>, url: Option<String>) -> Seq<SubtitleTrackView> {
    match url {
        Some(u) => seq![
            SubtitleTrackView { lang: Some(lang), src: SubtitleSourceView::Url(u@), headers: None },
        ],
        None => Seq::empty(),
    }
}

/// The subtitle tracks of an episode: American English, Latin American Spanish,
/// then Brazilian Portuguese, each where it has a URL.
pub open spec fn subtitle_tracks(subs: Option<Subtitles>) -> Seq<SubtitleTrackView> {
    match subs {
        Some(s) => subtitle_track("en_us"@, s.en_us) + subtitle_track("es_la"@, s.es_la)
            + subtitle_track("pt_br"@, s.pt_br),
        None => Seq::empty(),
    }
}

/// The track in language `lang` with the subtitle URL `u`.
pub open spec fn url_track(lang: Seq<char>, u: String) -> SubtitleTrackView {
    SubtitleTrackView { lang: Some(lang), src: SubtitleSourceView::Url(u@), headers: None }
}

/// One for a URL that is there, none for one that is not.
pub open spec fn present(u: Option<String>) -> int {
    if u is Some {
        1
    } else {
        0
    }
}

/// The subtitle tracks of an answer are exactly those of the languages whose URL
/// it gives: one track per present URL, each with its language and URL, American
/// English first and Brazilian Portuguese last; no track without a URL.
pub proof fn lemma_subtitle_tracks(s: Subtitles)
    ensures
        subtitle_tracks(Some(s)).len() == present(s.en_us) + present(s.es_la) + present(s.pt_br),
        s.en_us matches Some(u) ==> subtitle_tracks(Some(s)).contains(url_track("en_us"@, u)),
        s.es_la matches Some(u) ==> subtitle_tracks(Some(s)).contains(url_track("es_la"@, u)),
        s.pt_br matches Some(u) ==> subtitle_tracks(Some(s)).contains(url_track("pt_br"@, u)),
        s.en_us matches Some(u) ==> subtitle_tracks(Some(s))[0] == url_track("en_us"@, u),
        s.pt_br matches Some(u) ==> subtitle_tracks(Some(s)).last() == url_track("pt_br"@, u),
        forall|i: int|
            0 <= i < subtitle_tracks(Some(s)).len() ==> {
                let t = #[trigger] subtitle_tracks(Some(s))[i];
                ||| (s.en_us matches Some(u) && t == url_track("en_us"@, u))
                ||| (s.es_la matches Some(u) && t == url_track("es_la"@, u))
                ||| (s.pt_br matches Some(u) && t == url_track("pt_br"@, u))
            },
        subtitle_tracks(None).len() == 0,
{
    let a = subtitle_track("en_us"@, s.en_us);
    let b = subtitle_track("es_la"@, s.es_la);
    let c = subtitle_track("pt_br"@, s.pt_br);
    let t = subtitle_tracks(Some(s));
    assert(t == a + b + c);
    match s.en_us {
        Some(u) => {
            assert(a[0] == url_track("en_us"@, u));
            assert(t[0] == a[0]);
        },
        None => {},
    }
    match s.es_la {
        Some(u) => {
            assert(t[a.len() as int] == url_track("es_la"@, u));
        },
        None => {},
    }
    match s.pt_br {
        Some(u) => {
            assert(t[t.len() - 1] == url_track("pt_br"@, u));
        },
        None => {},
    }
    assert forall|i: int|
        0 <= i < t.len() implies {
            let x = #[trigger] t[i];
            ||| (s.en_us matches Some(u) && x == url_track("en_us"@, u))
            ||| (s.es_la matches Some(u) && x == url_track("es_la"@, u))
            ||| (s.pt_br matches Some(u) && x == url_track("pt_br"@, u))
        } by {
        if i < a.len() {
            assert(t[i] == a[i]);
        } else if i < a.len() + b.len() {
            assert(t[i] == b[i - a.len()]);
        } else {
            assert(t[i] == c[i - a.len() - b.len()]);
        }
    }
}

/// The stream of an episode: direct, titled after the site, with the site as
/// `Referer`.
pub open spec fn video_stream(url: Seq<char>) -> StreamLinkView {
    StreamLinkView {
        title: "AnimeOnsen"@,
        url,
        is_direct: true,
        quality: None,
        headers: Some(seq![("Referer"@, "https://www."@ + HOST@)]),
    }
}

fn push_track(out: &mut Vec<SubtitleTrack>, lang: &str, url: &Option<String>)
    ensures
        views(final(out)@) == views(old(out)@) + subtitle_track(lang@, *url),
{
    match url {
        Some(u) => {
            let ghost before = views(out@);
            out.push(
                SubtitleTrack {
                    lang: Some(String::from_str(lang)),
                    src: SubtitleSource::Url(u.clone()),
                    headers: None,
                },
            );
            assert(views(out@) =~= before + subtitle_track(lang@, *url));
        },
        None => {
            assert(views(out@) =~= views(old(out)@) + subtitle_track(lang@, *url));
        },
    }
}

/// The streams and the subtitle tracks in the video API's answer.
pub fn streams_from_response(resp: &VideoResponse) -> (r: (Vec<StreamLink>, Vec<SubtitleTrack>))
    requires
        video_response_complete(resp),
    ensures
        views(r.0@) == seq![video_stream(resp.uri->0.stream->0@)],
        views(r.1@) == subtitle_tracks(resp.uri->0.subtitles),
        resp.uri->0.subtitles matches Some(s) ==> {
            &&& r.1@.len() == present(s.en_us) + present(s.es_la) + present(s.pt_br)
            &&& s.en_us matches Some(u) ==> views(r.1@).contains(url_track("en_us"@, u))
            &&& s.es_la matches Some(u) ==> views(r.1@).contains(url_track("es_la"@, u))
            &&& s.pt_br matches Some(u) ==> views(r.1@).contains(url_track("pt_br"@, u))
        },
        resp.uri->0.subtitles is None ==> r.1@.len() == 0,
{
    proof {
        match resp.uri->0.subtitles {
            Some(s) => lemma_subtitle_tracks(s),
            None => {},
        }
    }
    let u = match &resp.uri {
        Some(u) => u,
        None => {
            return (Vec::new(), Vec::new());
        },
    };
    let url = match &u.stream {
        Some(s) => s.clone(),
        None => String::new(),
    };
    let mut referer = String::from_str("https://www.");
    referer.append(HOST);
    let headers = vec![(String::from_str("Referer"), referer)];
    assert(headers.deep_view() =~= seq![("Referer"@, "https://www."@ + HOST@)]);
    let stream = StreamLink {
        url,
        title: String::from_str("AnimeOnsen"),
        is_direct: true,
        headers: Some(headers),
        quality: None,
    };
    assert(stream@ == video_stream(resp.uri->0.stream->0@));
    let streams = vec![stream];
    assert(views(streams@) =~= seq![video_stream(resp.uri->0.stream->0@)]);
    let mut tracks: Vec<SubtitleTrack> = Vec::new();
    match &u.subtitles {
        Some(s) => {
            push_track(&mut tracks, "en_us", &s.en_us);
            push_track(&mut tracks, "es_la", &s.es_la);
            push_track(&mut tracks, "pt_br", &s.pt_br);
            assert(views(tracks@) =~= subtitle_tracks(resp.uri->0.subtitles));
        },
        None => {
            assert(views(tracks@) =~= subtitle_tracks(resp.uri->0.subtitles));
        },
    }
    (streams, tracks)
}

} // verus!
