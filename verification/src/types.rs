//! The records that providers produce and the rest of the tool consumes.

use vstd::prelude::*;
use crate::text::copy_opt_pairs;

verus! {

/// One hit of a provider search.
#[derive(Debug)]
pub struct SearchResult {
    pub title: String,
    pub url: String,
    pub provider: String,
}

/// One episode of a show on a provider.
#[derive(Debug)]
pub struct AnimeEpisode {
    pub title: String,
    pub url: String,
    pub ep_num: i32,
    pub provider: String,
}

#[allow(non_camel_case_types)]
#[derive(Debug, Clone, Copy, PartialEq, Eq)]
pub enum Quality {
    _4K,
    _2K,
    _1080p,
    _720p,
    _480p,
    _360p,
}

/// A link to a video stream; `is_direct` streams can be played as they are, the
/// others are embeds that an extractor has to unpack. `headers` are the HTTP
/// header name/value pairs that a request for the stream needs.
#[derive(Debug)]
pub struct StreamLink {
    pub title: String,
    pub url: String,
    pub is_direct: bool,
    pub quality: Option<Quality>,
    pub headers: Option<Vec<(String, String)>>,
}

#[derive(Debug)]
pub enum SubtitleSource {
    Url(String),
    File(String),
}

#[derive(Debug)]
pub struct SubtitleTrack {
    pub lang: Option<String>,
    pub src: SubtitleSource,
    pub headers: Option<Vec<(String, String)>>,
}

/// The model of a search result.
pub struct SearchResultView {
    pub title: Seq<char>,
    pub url: Seq<char>,
    pub provider: Seq<char>,
}

impl View for SearchResult {
    type V = SearchResultView;

    open spec fn view(&self) -> SearchResultView {
        SearchResultView { title: self.title@, url: self.url@, provider: self.provider@ }
    }
}

/// The model of an episode.
pub struct AnimeEpisodeView {
    pub title: Seq<char>,
    pub url: Seq<char>,
    pub ep_num: i32,
    pub provider: Seq<char>,
}

impl View for AnimeEpisode {
    type V = AnimeEpisodeView;

    open spec fn view(&self) -> AnimeEpisodeView {
        AnimeEpisodeView {
            title: self.title@,
            url: self.url@,
            ep_num: self.ep_num,
            provider: self.provider@,
        }
    }
}

/// The model of a stream link.
pub struct StreamLinkView {
    pub title: Seq<char>,
    pub url: Seq<char>,
    pub is_direct: bool,
    pub quality: Option<Quality>,
    pub headers: Option<Seq<(Seq<char>, Seq<char>)>>,
}

impl StreamLink {
    /// An owned copy with the same model.
    pub fn copy(&self) -> (r: StreamLink)
        ensures
            r@ == self@,
    {
        StreamLink {
            title: self.title.clone(),
            url: self.url.clone(),
            is_direct: self.is_direct,
            quality: self.quality,
            headers: copy_opt_pairs(&self.headers),
        }
    }
}

impl View for StreamLink {
    type V = StreamLinkView;

    open spec fn view(&self) -> StreamLinkView {
        StreamLinkView {
            title: self.title@,
            url: self.url@,
            is_direct: self.is_direct,
            quality: self.quality,
            headers: self.headers.deep_view(),
        }
    }
}

/// The model of a subtitle source.
pub enum SubtitleSourceView {
    Url(Seq<char>),
    File(Seq<char>),
}

/// The model of a subtitle track.
pub struct SubtitleTrackView {
    pub lang: Option<Seq<char>>,
    pub src: SubtitleSourceView,
    pub headers: Option<Seq<(Seq<char>, Seq<char>)>>,
}

impl View for SubtitleTrack {
    type V = SubtitleTrackView;

    open spec fn view(&self) -> SubtitleTrackView {
        SubtitleTrackView {
            lang: self.lang.deep_view(),
            src: match &self.src {
                SubtitleSource::Url(u) => SubtitleSourceView::Url(u@),
                SubtitleSource::File(f) => SubtitleSourceView::File(f@),
            },
            headers: self.headers.deep_view(),
        }
    }
}

/// The models of a list of values.
pub open spec fn views<T: View>(v: Seq<T>) -> Seq<T::V> {
    v.map_values(|x: T| x@)
}

} // verus!
