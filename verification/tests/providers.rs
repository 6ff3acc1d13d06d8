use anime_dl::providers::animeonsen::{
    api_token_from_cookie, content_id_from_url, episode_ids_from_url, episodes_api_url,
    episodes_from_response, get_test_url, home_url, search_api_url, search_response_is_complete,
    search_results_from_response, search_token_from_html, streams_from_response,
    token_from_decoded, video_api_url, video_response_is_complete, Episode, Hit, SearchReponse,
    Subtitles, Uri, VideoResponse,
};
use anime_dl::providers::yugen::{
    embed_api_url, embed_id_from_html, embed_is_complete, episode_from_parts, episodes_from_html,
    search_result_from_attrs, search_results_from_html, search_url, streams_from_embed,
    watch_page_url, Embed, Source,
};
use anime_dl::providers::ProviderError;
use anime_dl::types::SubtitleSource;

fn hit(title: Option<&str>, id: Option<&str>) -> Hit {
    Hit {
        content_title: title.map(|s| s.to_string()),
        content_title_en: None,
        content_title_jp: None,
        content_id: id.map(|s| s.to_string()),
    }
}

#[test]
fn animeonsen_urls() {
    assert_eq!(home_url(), "https://www.animeonsen.xyz");
    assert_eq!(search_api_url(), "https://search.animeonsen.xyz/indexes/content/search");
    assert_eq!(episodes_api_url("ab"), "https://api.animeonsen.xyz/v4/content/ab/episodes");
    assert_eq!(video_api_url("ab", "3"), "https://api.animeonsen.xyz/v4/content/ab/video/3");
    assert_eq!(get_test_url("0").unwrap(), "https://www.animeonsen.xyz/details/d5eRZVtbu86Kwy7E");
    assert_eq!(get_test_url("1").unwrap(), "https://animeonsen.xyz/watch/d5eRZVtbu86Kwy7E?episode=1");
    match get_test_url("2") {
        Err(ProviderError::Unexpected(m)) => assert_eq!(m, "Out of bounds."),
        other => panic!("{:?}", other),
    }
}

#[test]
fn search_token_is_read_from_the_page() {
    let html = r#"<html><head><meta name="ao-search-token" content="tok123"></head></html>"#;
    assert_eq!(search_token_from_html(html).unwrap(), "Bearer tok123");
    match search_token_from_html("<html></html>") {
        Err(ProviderError::Unexpected(m)) => assert_eq!(m, "Failed to find the search token."),
        other => panic!("{:?}", other),
    }
    match search_token_from_html(r#"<meta name="ao-search-token">"#) {
        Err(ProviderError::Unexpected(m)) => assert!(m.starts_with("Found the search token")),
        other => panic!("{:?}", other),
    }
}

#[test]
fn api_token_comes_from_the_cookie() {
    assert_eq!(api_token_from_cookie("ao.session=YGFi; Path=/").unwrap().unwrap(), "Bearer abc");
    assert_eq!(api_token_from_cookie("ao.session=YGE%3D; Path=/").unwrap().unwrap(), "Bearer ab");
    assert_eq!(api_token_from_cookie("ao.session=YG%46i; Path=/").unwrap().unwrap(), "Bearer abc");
    assert!(matches!(api_token_from_cookie("ao.session=%FF").unwrap(), Err(ProviderError::InvalidUtf8)));
    assert!(matches!(api_token_from_cookie("ao.session=/g==").unwrap(), Err(ProviderError::InvalidUtf8)));
    assert!(api_token_from_cookie("ao.session=/w==").is_none());
    assert!(api_token_from_cookie("ao.session=!!!").is_none());
    assert!(matches!(api_token_from_cookie("").unwrap(), Err(ProviderError::Unexpected(_))));
    assert_eq!(token_from_decoded(&vec![0x60, 0x61]).unwrap(), "Bearer ab");
}

#[test]
fn search_results_from_hits() {
    let resp = SearchReponse {
        hits: Some(vec![hit(Some("  Overlord "), Some("abc")), hit(Some("Two"), Some("d"))]),
        estimated_total_hits: None,
        query: None,
        limit: None,
        offset: None,
        processing_time_ms: None,
    };
    assert!(search_response_is_complete(&resp));
    let r = search_results_from_response(&resp).unwrap();
    assert_eq!(r.len(), 2);
    assert_eq!(r[0].title, "Overlord");
    assert_eq!(r[0].url, "https://animeonsen.xyz/details/abc");
    assert_eq!(r[0].provider, "animeonsen");
    let empty = SearchReponse { hits: None, estimated_total_hits: None, query: None, limit: None, offset: None, processing_time_ms: None };
    match search_results_from_response(&empty) {
        Err(ProviderError::Unexpected(m)) => assert_eq!(m, "Unexpected API response."),
        other => panic!("{:?}", other),
    }
    let partial = SearchReponse { hits: Some(vec![hit(None, Some("x"))]), estimated_total_hits: None, query: None, limit: None, offset: None, processing_time_ms: None };
    assert!(!search_response_is_complete(&partial));
}

#[test]
fn ids_from_urls() {
    assert_eq!(content_id_from_url("https://www.animeonsen.xyz/details/d5eRZVtbu86Kwy7E").unwrap(), "d5eRZVtbu86Kwy7E");
    assert!(matches!(content_id_from_url("https://example.com/x"), Err(ProviderError::Unexpected(_))));
    let (id, ep) = episode_ids_from_url("https://animeonsen.xyz/watch/d5eRZVtbu86Kwy7E?episode=12").unwrap();
    assert_eq!(id, "d5eRZVtbu86Kwy7E");
    assert_eq!(ep, "12");
    assert!(episode_ids_from_url("https://animeonsen.xyz/watch/x").is_err());
}

#[test]
fn episodes_from_the_api_answer() {
    let e = |en: Option<&str>, jp: Option<&str>| Episode {
        content_title_episode_en: en.map(|s| s.to_string()),
        content_title_episode_jp: jp.map(|s| s.to_string()),
    };
    let entries = vec![
        ("2".to_string(), e(Some("Two"), None)),
        ("x".to_string(), e(None, None)),
        ("1".to_string(), e(None, Some("Ichi"))),
    ];
    let eps = episodes_from_response("abc", entries);
    let nums: Vec<i32> = eps.iter().map(|e| e.ep_num).collect();
    assert_eq!(nums, vec![-1, 1, 2]);
    assert_eq!(eps[0].title, "");
    assert_eq!(eps[1].title, "Ichi");
    assert_eq!(eps[2].title, "Two");
    assert_eq!(eps[2].url, "https://animeonsen.xyz/watch/abc?episode=2");
    assert_eq!(eps[2].provider, "animeonsen");
}

#[test]
fn streams_from_the_video_answer() {
    let resp = VideoResponse {
        metadata: None,
        uri: Some(Uri {
            stream: Some("https://cdn/v.mpd".to_string()),
            subtitles: Some(Subtitles { en_us: Some("https://s/en".to_string()), es_la: None, pt_br: Some("https://s/pt".to_string()) }),
        }),
    };
    assert!(video_response_is_complete(&resp));
    let (streams, subs) = streams_from_response(&resp);
    assert_eq!(streams.len(), 1);
    assert_eq!(streams[0].url, "https://cdn/v.mpd");
    assert_eq!(streams[0].title, "AnimeOnsen");
    assert!(streams[0].is_direct);
    assert_eq!(streams[0].headers, Some(vec![("Referer".to_string(), "https://www.animeonsen.xyz".to_string())]));
    assert_eq!(subs.len(), 2);
    assert_eq!(subs[0].lang.as_deref(), Some("en_us"));
    assert!(matches!(&subs[1].src, SubtitleSource::Url(u) if u == "https://s/pt"));
    assert!(!video_response_is_complete(&VideoResponse { metadata: None, uri: None }));
}

#[test]
fn yugen_urls_and_results() {
    assert_eq!(search_url(), "https://yugen.to/search/");
    assert_eq!(watch_page_url("https://yugen.to/anime/1/x/"), "https://yugen.to/anime/1/x/watch");
    assert_eq!(embed_api_url(), "https://yugen.to/api/embed/");
    let r = search_result_from_attrs("Show", "/anime/1/show/");
    assert_eq!(r.url, "https://yugen.to/anime/1/show/");
    assert_eq!(r.provider, "yugen");
}

#[test]
fn yugen_search_page() {
    let html = r#"<div><a class="anime-meta" title="A" href="/anime/1/a/"></a><a class="anime-meta" title="B" href="/anime/2/b/"></a></div>"#;
    let r = search_results_from_html(html).unwrap().unwrap();
    assert_eq!(r.len(), 2);
    assert_eq!(r[1].title, "B");
    assert_eq!(r[1].url, "https://yugen.to/anime/2/b/");
    assert!(search_results_from_html(r#"<a class="anime-meta" href="/x"></a>"#).is_none());
}

#[test]
fn yugen_episode_page() {
    let html = r#"<div class="ep-card"><a href="/x"></a><a href="/watch/10/show/3/" title="3 : The Third"></a></div><div class="ep-card"><a></a><a href="/watch/10/show/4/" title="Four"></a></div>"#;
    let eps = episodes_from_html(html).unwrap().unwrap();
    assert_eq!(eps.len(), 2);
    assert_eq!(eps[0].ep_num, 3);
    assert_eq!(eps[0].title, "The Third");
    assert_eq!(eps[0].url, "https://yugen.to/watch/10/show/3/");
    assert_eq!(eps[1].title, "Four");
    let bad = r#"<div class="ep-card"><a></a><a href="/elsewhere" title="t"></a></div>"#;
    match episodes_from_html(bad).unwrap() {
        Err(ProviderError::Unexpected(m)) => assert_eq!(m, "No match found."),
        other => panic!("{:?}", other),
    }
    let no_title = r#"<div class="ep-card"><a></a><a href="/watch/1/s/2/"></a></div>"#;
    assert!(episodes_from_html(no_title).is_none());
    assert_eq!(episode_from_parts("12 : Twelve 12 :", "/w", 12).title, "Twelve 12 :");
}

#[test]
fn yugen_embed() {
    let html = r#"<iframe id="main-embed" src="https://yugen.to/e/AbC123/"></iframe>"#;
    assert_eq!(embed_id_from_html(html).unwrap().unwrap(), "AbC123");
    match embed_id_from_html("<p></p>").unwrap() {
        Err(ProviderError::Unexpected(m)) => assert_eq!(m, "Couldn't find the embed."),
        other => panic!("{:?}", other),
    }
    assert!(embed_id_from_html(r#"<iframe id="main-embed"></iframe>"#).is_none());
    let embed = Embed {
        message: None,
        thumbnail: None,
        sources: Some(vec![Source { name: Some("Mirror".to_string()), src: Some("https://goload.pro/e".to_string()), source_type: None }]),
        hls: Some(vec!["https://cdn/m.m3u8".to_string()]),
    };
    assert!(embed_is_complete(&embed));
    let s = streams_from_embed(&embed);
    assert_eq!(s.len(), 2);
    assert_eq!(s[0].title, "Mirror");
    assert!(!s[0].is_direct);
    assert_eq!(s[1].title, "HLS");
    assert_eq!(s[1].url, "https://cdn/m.m3u8");
    assert!(s[1].is_direct);
}
