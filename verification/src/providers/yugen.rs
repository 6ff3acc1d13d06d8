//! The Yugen provider: its URLs, and what it makes of the site's pages and API
//! answers.

use vstd::prelude::*;
use crate::bridge::{html_select, html_select_attrs, regex_captures_first, regex_first_captures};
use crate::m3u8::group_at;
use crate::providers::{ProviderError, ProviderErrorView};
use crate::text::{
    i32_to_string, int_to_decimal, parse_i32, parse_i32_spec, replace_first, replace_first_seq, trim,
    trim_seq,
};
use crate::types::{
    AnimeEpisode, AnimeEpisodeView, SearchResult, SearchResultView, StreamLink, StreamLinkView, views,
};

verus! {

pub const HOST: &'static str = "yugen.to";

/// The selector of the links on the search page.
pub const SEARCH_SELECTOR: &'static str = "[class=\"anime-meta\"]";

/// The selector of the episode links on a show's watch page.
pub const EPISODE_SELECTOR: &'static str = "[class=\"ep-card\"] a:nth-child(2)";

/// The pattern of an episode link; group 1 is the episode number.
pub const EP_NUM_PATTERN: &'static str = "/watch/\\d+/.*?/(\\d+)/";

/// The selector of the video embed on an episode page.
pub const EMBED_SELECTOR: &'static str = "[id=\"main-embed\"]";

/// The pattern of the embed's source; group 1 is the embed id.
pub const EMBED_ID_PATTERN: &'static str = "/e/(.*?)/";

/// A video source in the embed API's answer.
#[derive(Debug)]
pub struct Source {
    pub name: Option<String>,
    pub src: Option<String>,
    pub source_type: Option<String>,
}

/// The answer of the embed API: the embed's sources and its HLS playlists.
#[derive(Debug)]
pub struct Embed {
    pub message: Option<String>,
    pub thumbnail: Option<String>,
    pub sources: Option<Vec<Source>>,
    pub hls: Option<Vec<String>>,
}

/// The search page's URL; the query goes in its `q` parameter.
pub fn search_url() -> (r: String)
    ensures
        r@ == "https://"@ + HOST@ + "/search/"@,
{
    let mut r = String::from_str("https://");
    r.append(HOST);
    r.append("/search/");
    r
}

/// The URL of the watch page of the show whose page is `anime_url`.
pub fn watch_page_url(anime_url: &str) -> (r: String)
    ensures
        r@ == anime_url@ + "watch"@,
{
    let mut r = String::from_str(anime_url);
    r.append("watch");
    r
}

/// The embed API's URL.
pub fn embed_api_url() -> (r: String)
    ensures
        r@ == "https://"@ + HOST@ + "/api/embed/"@,
{
    let mut r = String::from_str("https://");
    r.append(HOST);
    r.append("/api/embed/");
    r
}

/// The search result for a link with these `title` and `href` attributes.
pub open spec fn link_result(title: Seq<char>, href: Seq<char>) -> SearchResultView {
    SearchResultView { title, url: "https://"@ + HOST@ + href, provider: "yugen"@ }
}

/// A search result from a link's `title` and `href` attributes.
pub fn search_result_from_attrs(title: &str, href: &str) -> (r: SearchResult)
    ensures
        r@ == link_result(title@, href@),
{
    let mut url = String::from_str("https://");
    url.append(HOST);
    url.append(href);
    SearchResult { title: String::from_str(title), url, provider: String::from_str("yugen") }
}

/// The row holds a value for each of its first two attributes.
pub open spec fn row_complete(row: Seq<Option<Seq<char>>>) -> bool {
    row.len() >= 2 && row[0] is Some && row[1] is Some
}

/// The search results on a search page whose links have the attribute rows
/// `found` (`title`, then `href`). `None` where a link lacks one, which the tool
/// does not accept.
pub open spec fn search_results_spec(found: Option<Seq<Seq<Option<Seq<char>>>>>) -> Option<
    Result<Seq<SearchResultView>, ProviderErrorView>,
> {
    match found {
        None => Some(Err(ProviderErrorView::InvalidPattern)),
        Some(rows) => if forall|i: int| 0 <= i < rows.len() ==> #[trigger] row_complete(rows[i]) {
            Some(
                Ok(
                    rows.map_values(
                        |row: Seq<Option<Seq<char>>>| link_result(row[0]->0, row[1]->0),
                    ),
                ),
            )
        } else {
            None
        },
    }
}

/// The search results on the search page `html`.
pub fn search_results_from_html(html: &str) -> (r: Option<Result<Vec<SearchResult>, ProviderError>>)
    ensures
        r is Some == search_results_spec(
            html_select_attrs(html@, SEARCH_SELECTOR@, seq!["title"@, "href"@]),
        ) is Some,
        r matches Some(Ok(v)) ==> search_results_spec(
            html_select_attrs(html@, SEARCH_SELECTOR@, seq!["title"@, "href"@]),
        ) == Some(Ok::<Seq<SearchResultView>, ProviderErrorView>(views(v@))),
        r matches Some(Err(e)) ==> search_results_spec(
            html_select_attrs(html@, SEARCH_SELECTOR@, seq!["title"@, "href"@]),
        ) == Some(Err::<Seq<SearchResultView>, ProviderErrorView>(e@)),
{
    let attrs = vec![String::from_str("title"), String::from_str("href")];
    assert(attrs.deep_view() =~= seq!["title"@, "href"@]);
    let rows = match html_select(html, SEARCH_SELECTOR, &attrs) {
        None => {
            return Some(Err(ProviderError::InvalidPattern));
        },
        Some(rows) => rows,
    };
    let ghost rs = rows.deep_view();
    let mut out: Vec<SearchResult> = Vec::new();
    let mut i: usize = 0;
    while i < rows.len()
        invariant
            i <= rows.len(),
            rs == rows.deep_view(),
            html_select_attrs(html@, SEARCH_SELECTOR@, seq!["title"@, "href"@]) == Some(rs),
            forall|k: int| 0 <= k < i ==> #[trigger] row_complete(rs[k]),
            views(out@) =~= rs.take(i as int).map_values(
                |row: Seq<Option<Seq<char>>>| link_result(row[0]->0, row[1]->0),
            ),
        decreases rows.len() - i,
    {
        let row = &rows[i];
        assert(row.deep_view() == rs[i as int]);
        if row.len() < 2 || row[0].is_none() || row[1].is_none() {
            assert(!row_complete(rs[i as int]));
            return None;
        }
        let res = match (&row[0], &row[1]) {
            (Some(t), Some(h)) => search_result_from_attrs(t.as_str(), h.as_str()),
            _ => {
                return None;
            },
        };
        let ghost before = views(out@);
        let ghost rv = res@;
        out.push(res);
        assert(views(out@) =~= before.push(rv));
        assert(rs.take(i + 1).map_values(
            |row: Seq<Option<Seq<char>>>| link_result(row[0]->0, row[1]->0),
        ) =~= rs.take(i as int).map_values(
            |row: Seq<Option<Seq<char>>>| link_result(row[0]->0, row[1]->0),
        ).push(link_result(rs[i as int][0]->0, rs[i as int][1]->0)));
        i = i + 1;
    }
    assert(rs.take(rows.len() as int) =~= rs);
    Some(Ok(out))
}

/// An episode from its link's `title` and `href` and its number: the title
/// without its first `<number> :`, trimmed.
pub open spec fn link_episode(title: Seq<char>, href: Seq<char>, ep_num: i32) -> AnimeEpisodeView {
    AnimeEpisodeView {
        title: trim_seq(replace_first_seq(title, int_to_decimal(ep_num as int) + " :"@, Seq::empty())),
        url: "https://"@ + HOST@ + href,
        ep_num,
        provider: "yugen"@,
    }
}

/// The episode with number `ep_num` whose link has these `title` and `href`.
pub fn episode_from_parts(title: &str, href: &str, ep_num: i32) -> (r: AnimeEpisode)
    ensures
        r@ == link_episode(title@, href@, ep_num),
{
    let mut prefix = i32_to_string(ep_num);
    prefix.append(" :");
    let stripped = replace_first(title, prefix.as_str(), "");
    proof {
        reveal_strlit("");
        assert(""@ =~= Seq::<char>::empty());
    }
    let t = trim(stripped.as_str());
    let mut url = String::from_str("https://");
    url.append(HOST);
    url.append(href);
    AnimeEpisode { title: t, url, ep_num, provider: String::from_str("yugen") }
}

/// What one episode link gives.
pub enum LinkOutcome {
    /// The link's episode.
    Episode(AnimeEpisodeView),
    /// The page is refused for this reason.
    Fail(ProviderErrorView),
    /// The link lacks what the tool needs and does not accept.
    Refused,
}

/// What the episode link with attributes `row` (`href`, then `title`) gives: its
/// `href` must match the episode pattern, whose group 1 is the number.
pub open spec fn link_outcome(row: Seq<Option<Seq<char>>>) -> LinkOutcome {
    match group_at(row, 0) {
        None => LinkOutcome::Fail(ProviderErrorView::Unexpected(Seq::empty())),
        Some(href) => match regex_first_captures(EP_NUM_PATTERN@, href) {
            None => LinkOutcome::Fail(ProviderErrorView::InvalidPattern),
            Some(None) => LinkOutcome::Fail(ProviderErrorView::Unexpected("No match found."@)),
            Some(Some(g)) => match group_at(g, 1) {
                None => LinkOutcome::Refused,
                Some(num) => match parse_i32_spec(num) {
                    None => LinkOutcome::Fail(ProviderErrorView::InvalidNumber(num)),
                    Some(n) => match group_at(row, 1) {
                        None => LinkOutcome::Refused,
                        Some(title) => LinkOutcome::Episode(link_episode(title, href, n)),
                    },
                },
            },
        },
    }
}

/// The episodes that the links `rows` give, in order; the first failure stops
/// the page. `None` where a link is refused before that.
pub open spec fn links_episodes(rows: Seq<Seq<Option<Seq<char>>>>) -> Option<
    Result<Seq<AnimeEpisodeView>, ProviderErrorView>,
>
    decreases rows.len(),
{
    if rows.len() == 0 {
        Some(Ok(Seq::empty()))
    } else {
        match link_outcome(rows[0]) {
            LinkOutcome::Fail(e) => Some(Err(e)),
            LinkOutcome::Refused => None,
            LinkOutcome::Episode(e) => match links_episodes(rows.drop_first()) {
                Some(Ok(rest)) => Some(Ok(seq![e] + rest)),
                other => other,
            },
        }
    }
}

/// `r` with `prefix` in front of its episodes.
pub open spec fn after_prefix(
    prefix: Seq<AnimeEpisodeView>,
    r: Option<Result<Seq<AnimeEpisodeView>, ProviderErrorView>>,
) -> Option<Result<Seq<AnimeEpisodeView>, ProviderErrorView>> {
    match r {
        Some(Ok(rest)) => Some(Ok(prefix + rest)),
        other => other,
    }
}

/// The episodes on a watch page whose episode links have the attribute rows
/// `found` (`href`, then `title`).
pub open spec fn episodes_spec(found: Option<Seq<Seq<Option<Seq<char>>>>>) -> Option<
    Result<Seq<AnimeEpisodeView>, ProviderErrorView>,
> {
    match found {
        None => Some(Err(ProviderErrorView::InvalidPattern)),
        Some(rows) => links_episodes(rows),
    }
}

fn copy_group(g: &Vec<Option<String>>, i: usize) -> (r: Option<String>)
    ensures
        r.deep_view() == group_at(g.deep_view(), i as int),
{
    if i < g.len() {
        match &g[i] {
            Some(v) => Some(v.clone()),
            None => None,
        }
    } else {
        None
    }
}

/// The episodes on the watch page `html`.
pub fn episodes_from_html(html: &str) -> (r: Option<Result<Vec<AnimeEpisode>, ProviderError>>)
    ensures
        r is Some == episodes_spec(
            html_select_attrs(html@, EPISODE_SELECTOR@, seq!["href"@, "title"@]),
        ) is Some,
        r matches Some(Ok(v)) ==> episodes_spec(
            html_select_attrs(html@, EPISODE_SELECTOR@, seq!["href"@, "title"@]),
        ) == Some(Ok::<Seq<AnimeEpisodeView>, ProviderErrorView>(views(v@))),
        r matches Some(Err(e)) ==> episodes_spec(
            html_select_attrs(html@, EPISODE_SELECTOR@, seq!["href"@, "title"@]),
        ) == Some(Err::<Seq<AnimeEpisodeView>, ProviderErrorView>(e@)),
{
    let attrs = vec![String::from_str("href"), String::from_str("title")];
    assert(attrs.deep_view() =~= seq!["href"@, "title"@]);
    let rows = match html_select(html, EPISODE_SELECTOR, &attrs) {
        None => {
            return Some(Err(ProviderError::InvalidPattern));
        },
        Some(rows) => rows,
    };
    let ghost rs = rows.deep_view();
    let mut out: Vec<AnimeEpisode> = Vec::new();
    let mut i: usize = 0;
    assert(rs.skip(0) =~= rs);
    while i < rows.len()
        invariant
            i <= rows.len(),
            rs == rows.deep_view(),
            html_select_attrs(html@, EPISODE_SELECTOR@, seq!["href"@, "title"@]) == Some(rs),
            links_episodes(rs) == after_prefix(views(out@), links_episodes(rs.skip(i as int))),
        decreases rows.len() - i,
    {
        let row = &rows[i];
        let ghost rv = rs[i as int];
        assert(row.deep_view() == rv);
        assert(rs.skip(i as int)[0] == rv);
        assert(rs.skip(i as int).drop_first() =~= rs.skip(i + 1));
        let href = match copy_group(row, 0) {
            Some(h) => h,
            None => {
                return Some(Err(ProviderError::Unexpected(String::new())));
            },
        };
        let g = match regex_captures_first(EP_NUM_PATTERN, href.as_str()) {
            None => {
                return Some(Err(ProviderError::InvalidPattern));
            },
            Some(None) => {
                return Some(Err(ProviderError::Unexpected(String::from_str("No match found."))));
            },
            Some(Some(g)) => g,
        };
        let num = match copy_group(&g, 1) {
            Some(n) => n,
            None => {
                return None;
            },
        };
        let n = match parse_i32(num.as_str()) {
            Some(n) => n,
            None => {
                return Some(Err(ProviderError::InvalidNumber(num)));
            },
        };
        let title = match copy_group(row, 1) {
            Some(t) => t,
            None => {
                return None;
            },
        };
        let ep = episode_from_parts(title.as_str(), href.as_str(), n);
        let ghost before = views(out@);
        let ghost ev = ep@;
        out.push(ep);
        assert(views(out@) =~= before.push(ev));
        assert(link_outcome(rv) == LinkOutcome::Episode(ev));
        proof {
            let tail = links_episodes(rs.skip(i + 1));
            assert(links_episodes(rs.skip(i as int)) == match tail {
                Some(Ok(rest)) => Some(Ok(seq![ev] + rest)),
                other => other,
            });
            match tail {
                Some(Ok(rest)) => {
                    assert(before + (seq![ev] + rest) =~= before.push(ev) + rest);
                },
                _ => {},
            }
        }
        i = i + 1;
    }
    assert(rs.skip(rows.len() as int) =~= Seq::<Seq<Option<Seq<char>>>>::empty());
    assert(views(out@) + Seq::<AnimeEpisodeView>::empty() =~= views(out@));
    Some(Ok(out))
}

/// The embed id on an episode page whose embed elements have the `src` rows
/// `found`. `None` where the embed lacks a `src`, or its match lacks the id group,
/// which the tool does not accept.
pub open spec fn embed_id_spec(found: Option<Seq<Seq<Option<Seq<char>>>>>) -> Option<
    Result<Seq<char>, ProviderErrorView>,
> {
    match found {
        None => Some(Err(ProviderErrorView::InvalidPattern)),
        Some(rows) => if rows.len() == 0 {
            Some(Err(ProviderErrorView::Unexpected("Couldn't find the embed."@)))
        } else {
            match group_at(rows[0], 0) {
                None => None,
                Some(src) => match regex_first_captures(EMBED_ID_PATTERN@, src) {
                    None => Some(Err(ProviderErrorView::InvalidPattern)),
                    Some(None) => Some(Err(ProviderErrorView::Unexpected("No match found"@))),
                    Some(Some(g)) => match group_at(g, 1) {
                        None => None,
                        Some(id) => Some(Ok(id)),
                    },
                },
            }
        },
    }
}

/// The id of the video embed on the episode page `html`.
pub fn embed_id_from_html(html: &str) -> (r: Option<Result<String, ProviderError>>)
    ensures
        r is Some == embed_id_spec(html_select_attrs(html@, EMBED_SELECTOR@, seq!["src"@])) is Some,
        r matches Some(Ok(v)) ==> embed_id_spec(
            html_select_attrs(html@, EMBED_SELECTOR@, seq!["src"@]),
        ) == Some(Ok::<Seq<char>, ProviderErrorView>(v@)),
        r matches Some(Err(e)) ==> embed_id_spec(
            html_select_attrs(html@, EMBED_SELECTOR@, seq!["src"@]),
        ) == Some(Err::<Seq<char>, ProviderErrorView>(e@)),
{
    let attrs = vec![String::from_str("src")];
    assert(attrs.deep_view() =~= seq!["src"@]);
    let rows = match html_select(html, EMBED_SELECTOR, &attrs) {
        None => {
            return Some(Err(ProviderError::InvalidPattern));
        },
        Some(rows) => rows,
    };
    if rows.len() == 0 {
        return Some(Err(ProviderError::Unexpected(String::from_str("Couldn't find the embed."))));
    }
    let src = match copy_group(&rows[0], 0) {
        Some(s) => s,
        None => {
            return None;
        },
    };
    match regex_captures_first(EMBED_ID_PATTERN, src.as_str()) {
        None => Some(Err(ProviderError::InvalidPattern)),
        Some(None) => Some(Err(ProviderError::Unexpected(String::from_str("No match found")))),
        Some(Some(g)) => match copy_group(&g, 1) {
            Some(id) => Some(Ok(id)),
            None => None,
        },
    }
}

/// Each source of the embed has a name and a URL, which the tool needs.
pub open spec fn embed_complete(embed: &Embed) -> bool {
    embed.sources matches Some(ss) ==> forall|i: int|
        0 <= i < ss@.len() ==> (#[trigger] ss@[i]).name is Some && ss@[i].src is Some
}

/// Whether each source of the embed has a name and a URL.
pub fn embed_is_complete(embed: &Embed) -> (b: bool)
    ensures
        b == embed_complete(embed),
{
    match &embed.sources {
        None => true,
        Some(ss) => {
            let mut i: usize = 0;
            while i < ss.len()
                invariant
                    i <= ss.len(),
                    embed.sources == Some(*ss),
                    forall|k: int|
                        0 <= k < i ==> (#[trigger] ss@[k]).name is Some && ss@[k].src is Some,
                decreases ss.len() - i,
            {
                if ss[i].name.is_none() || ss[i].src.is_none() {
                    assert(!(ss@[i as int].name is Some && ss@[i as int].src is Some));
                    return false;
                }
                i = i + 1;
            }
            true
        },
    }
}

/// The stream for an embed source: an embed that an extractor unpacks.
pub open spec fn source_stream(s: Source) -> StreamLinkView {
    StreamLinkView {
        title: s.name->0@,
        url: s.src->0@,
        is_direct: false,
        quality: None,
        headers: None,
    }
}

/// The stream for an HLS playlist of the embed: direct, titled `HLS`.
pub open spec fn hls_stream(url: String) -> StreamLinkView {
    StreamLinkView { title: "HLS"@, url: url@, is_direct: true, quality: None, headers: None }
}

/// The streams for the sources of an embed.
pub open spec fn sources_streams(embed: &Embed) -> Seq<StreamLinkView> {
    match embed.sources {
        Some(ss) => ss@.map_values(|s: Source| source_stream(s)),
        None => Seq::empty(),
    }
}

/// The streams for the HLS playlists of an embed.
pub open spec fn hls_streams(embed: &Embed) -> Seq<StreamLinkView> {
    match embed.hls {
        Some(hs) => hs@.map_values(|h: String| hls_stream(h)),
        None => Seq::empty(),
    }
}

/// The streams of an embed: its sources, then its HLS playlists.
pub open spec fn embed_streams(embed: &Embed) -> Seq<StreamLinkView> {
    sources_streams(embed) + hls_streams(embed)
}

/// The streams in the embed API's answer.
pub fn streams_from_embed(embed: &Embed) -> (r: Vec<StreamLink>)
    requires
        embed_complete(embed),
    ensures
        views(r@) == embed_streams(embed),
{
    let mut out: Vec<StreamLink> = Vec::new();
    let ghost src_part = sources_streams(embed);
    match &embed.sources {
        Some(ss) => {
            let mut i: usize = 0;
            while i < ss.len()
                invariant
                    i <= ss.len(),
                    embed.sources == Some(*ss),
                    embed_complete(embed),
                    views(out@) =~= ss@.take(i as int).map_values(|s: Source| source_stream(s)),
                decreases ss.len() - i,
            {
                let s = &ss[i];
                assert(s.name is Some && s.src is Some);
                let title = match &s.name {
                    Some(n) => n.clone(),
                    None => String::new(),
                };
                let url = match &s.src {
                    Some(u) => u.clone(),
                    None => String::new(),
                };
                let link = StreamLink { title, url, is_direct: false, quality: None, headers: None };
                let ghost before = views(out@);
                let ghost lv = link@;
                out.push(link);
                assert(views(out@) =~= before.push(lv));
                assert(ss@.take(i + 1).map_values(|s: Source| source_stream(s)) =~= ss@.take(
                    i as int,
                ).map_values(|s: Source| source_stream(s)).push(source_stream(ss@[i as int])));
                i = i + 1;
            }
            assert(ss@.take(ss.len() as int) =~= ss@);
        },
        None => {},
    }
    assert(views(out@) =~= src_part);
    match &embed.hls {
        Some(hs) => {
            let mut j: usize = 0;
            while j < hs.len()
                invariant
                    j <= hs.len(),
                    embed.hls == Some(*hs),
                    views(out@) =~= src_part + hs@.take(j as int).map_values(
                        |h: String| hls_stream(h),
                    ),
                decreases hs.len() - j,
            {
                let link = StreamLink {
                    title: String::from_str("HLS"),
                    url: hs[j].clone(),
                    is_direct: true,
                    quality: None,
                    headers: None,
                };
                let ghost before = views(out@);
                let ghost lv = link@;
                out.push(link);
                assert(views(out@) =~= before.push(lv));
                assert(hs@.take(j + 1).map_values(|h: String| hls_stream(h)) =~= hs@.take(
                    j as int,
                ).map_values(|h: String| hls_stream(h)).push(hls_stream(hs@[j as int])));
                j = j + 1;
            }
            assert(hs@.take(hs.len() as int) =~= hs@);
        },
        None => {},
    }
    assert(views(out@) =~= embed_streams(embed));
    out
}

} // verus!
