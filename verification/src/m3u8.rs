//! HLS playlists: stream URLs, their parents and extensions, and the variant
//! streams that a master playlist lists.

use vstd::prelude::*;
use crate::text::{
    copy_opt_pairs, copy_opt_string, find_char, find_char_index, has_prefix, lemma_find_char_from,
    lemma_rfind_char, rfind_char, rfind_char_index, starts_with, str_eq, substring,
};
use crate::bridge::{regex_all_captures, regex_captures_all};
use crate::types::views;

verus! {

/// An HLS stream: its playlist URL, the quality and resolution it was listed
/// with, and the HTTP header name/value pairs that a request for it needs.
#[derive(Debug)]
pub struct M3u8Stream {
    pub url: String,
    pub quality: Option<String>,
    pub resolution: Option<String>,
    pub headers: Option<Vec<(String, String)>>,
}

/// The model of an HLS stream.
pub struct M3u8StreamView {
    pub url: Seq<char>,
    pub quality: Option<Seq<char>>,
    pub resolution: Option<Seq<char>>,
    pub headers: Option<Seq<(Seq<char>, Seq<char>)>>,
}

impl View for M3u8Stream {
    type V = M3u8StreamView;

    open spec fn view(&self) -> M3u8StreamView {
        M3u8StreamView {
            url: self.url@,
            quality: self.quality.deep_view(),
            resolution: self.resolution.deep_view(),
            headers: self.headers.deep_view(),
        }
    }
}

impl M3u8Stream {
    /// An owned copy with the same model.
    pub fn copy(&self) -> (r: M3u8Stream)
        ensures
            r@ == self@,
    {
        M3u8Stream {
            url: self.url.clone(),
            quality: copy_opt_string(&self.quality),
            resolution: copy_opt_string(&self.resolution),
            headers: copy_opt_pairs(&self.headers),
        }
    }
}

/// `url` up to its first `?`.
pub open spec fn without_query(url: Seq<char>) -> Seq<char> {
    match find_char(url, '?') {
        Some(i) => url.take(i),
        None => url,
    }
}

/// The URL of the directory that holds `url`: the part before the query, less
/// one trailing `/`, up to its last `/` (empty when there is none).
pub open spec fn parent_url_spec(url: Seq<char>) -> Seq<char> {
    let a = without_query(url);
    let b = if a.len() > 0 && a.last() == '/' {
        a.drop_last()
    } else {
        a
    };
    match rfind_char(b, '/') {
        Some(j) => b.take(j),
        None => Seq::<char>::empty(),
    }
}

/// Takes the query off `url` and returns it up to its first `?`.
fn strip_query(url: &str) -> (r: String)
    ensures
        r@ == without_query(url@),
{
    match find_char_index(url, '?') {
        Some(i) => {
            proof {
                lemma_find_char_from(url@, '?', 0);
            }
            assert(find_char(url@, '?') == Some(i as int));
            assert(url@.take(i as int) =~= url@.subrange(0, i as int));
            substring(url, 0, i)
        },
        None => {
            assert(find_char(url@, '?') is None);
            String::from_str(url)
        },
    }
}

/// The URL of the directory that holds the playlist at `url`.
pub fn get_parent_url(url: &str) -> (r: String)
    ensures
        r@ == parent_url_spec(url@),
{
    let a = strip_query(url);
    let n = a.as_str().unicode_len();
    let b = if n > 0 && a.as_str().get_char(n - 1) == '/' {
        substring(a.as_str(), 0, n - 1)
    } else {
        a
    };
    proof {
        lemma_rfind_char(b@, '/');
    }
    match rfind_char_index(b.as_str(), '/') {
        Some(j) => substring(b.as_str(), 0, j),
        None => String::new(),
    }
}

/// A URL without a query and without a trailing `/` is its parent, a `/` and
/// its last segment.
pub proof fn lemma_parent_and_last_segment(url: Seq<char>)
    requires
        find_char(url, '?') is None,
        url.len() > 0,
        url.last() != '/',
        url.contains('/'),
    ensures
        parent_url_spec(url) + "/"@ + last_segment(url) == url,
{
    lemma_rfind_char(url, '/');
    reveal_strlit("/");
    assert("/"@.len() == 1);
    let k = choose|k: int| 0 <= k < url.len() && url[k] == '/';
    assert(rfind_char(url, '/') is Some);
    let j = rfind_char(url, '/')->0;
    assert(url.take(j) + "/"@ + url.skip(j + 1) =~= url);
}

/// A link that is relative to its playlist: one that starts with none of
/// `http://`, `https://` and `://`.
pub open spec fn is_partial_url_spec(url: Seq<char>) -> bool {
    !has_prefix(url, "http://"@) && !has_prefix(url, "https://"@) && !has_prefix(url, "://"@)
}

/// Whether `url` is relative to its playlist.
pub fn is_partial_url(url: &str) -> (b: bool)
    ensures
        b == is_partial_url_spec(url@),
{
    !starts_with(url, "http://") && !starts_with(url, "https://") && !starts_with(url, "://")
}

/// The last path segment of `path`.
pub open spec fn last_segment(path: Seq<char>) -> Seq<char> {
    match rfind_char(path, '/') {
        Some(j) => path.skip(j + 1),
        None => path,
    }
}

/// The file extension of the resource that `url` names: what follows the last
/// `.` of the last path segment, the query left out.
pub open spec fn absolute_extension(url: Seq<char>) -> Option<Seq<char>> {
    let seg = last_segment(without_query(url));
    match rfind_char(seg, '.') {
        Some(k) => Some(seg.skip(k + 1)),
        None => None,
    }
}

/// The file extension of the resource that `url` names, if it has one.
pub fn get_absolute_extension(url: &str) -> (r: Option<String>)
    ensures
        r.deep_view() == absolute_extension(url@),
{
    let path = strip_query(url);
    proof {
        lemma_rfind_char(path@, '/');
    }
    let pn = path.as_str().unicode_len();
    let seg = match rfind_char_index(path.as_str(), '/') {
        Some(j) => substring(path.as_str(), j + 1, pn),
        None => path,
    };
    assert(seg@ == last_segment(without_query(url@)));
    proof {
        lemma_rfind_char(seg@, '.');
    }
    let sn = seg.as_str().unicode_len();
    match rfind_char_index(seg.as_str(), '.') {
        Some(k) => Some(substring(seg.as_str(), k + 1, sn)),
        None => None,
    }
}

/// `link` made absolute against the directory URL `parent`.
pub open spec fn resolve_link_spec(parent: Seq<char>, link: Seq<char>) -> Seq<char> {
    if is_partial_url_spec(link) {
        parent + "/"@ + link
    } else {
        link
    }
}

/// `link`, made absolute against the directory URL `parent` when it is relative.
pub fn resolve_link(parent: &str, link: &str) -> (r: String)
    ensures
        r@ == resolve_link_spec(parent@, link@),
{
    if is_partial_url(link) {
        let mut r = String::from_str(parent);
        r.append("/");
        r.append(link);
        r
    } else {
        String::from_str(link)
    }
}

/// Why a stream cannot be read as an HLS playlist.
#[derive(Debug)]
pub enum M3u8Error {
    /// The URL names a file of this other type.
    UnsupportedFiletype(String),
    /// The URL names no file type.
    MissingFiletype,
    /// The playlist pattern does not compile.
    InvalidPattern,
}

/// The outcome of checking that `url` names an HLS playlist.
pub open spec fn stream_url_check(url: Seq<char>) -> Result<(), Option<Seq<char>>> {
    match absolute_extension(url) {
        Some(e) => if e == "m3u8"@ || e == "M3U8"@ {
            Ok(())
        } else {
            Err(Some(e))
        },
        None => Err(None),
    }
}

/// Accepts a playlist URL whose extension is `m3u8` or `M3U8`.
pub fn check_stream_url(url: &str) -> (r: Result<(), M3u8Error>)
    ensures
        stream_url_check(url@) is Ok <==> r is Ok,
        r matches Err(M3u8Error::UnsupportedFiletype(e)) ==> stream_url_check(url@) == Err::<
            (),
            Option<Seq<char>>,
        >(Some(e@)),
        r matches Err(M3u8Error::MissingFiletype) ==> stream_url_check(url@) == Err::<
            (),
            Option<Seq<char>>,
        >(None),
        !(r matches Err(M3u8Error::InvalidPattern)),
{
    match get_absolute_extension(url) {
        Some(e) => {
            if str_eq(e.as_str(), "m3u8") || str_eq(e.as_str(), "M3U8") {
                Ok(())
            } else {
                Err(M3u8Error::UnsupportedFiletype(e))
            }
        },
        None => Err(M3u8Error::MissingFiletype),
    }
}

/// The entry that a playlist lists for itself: listed unless `return_this` is
/// `Some(false)`, and with quality `Auto` where it has none.
pub open spec fn master_entry_spec(master: M3u8StreamView, return_this: Option<bool>) -> Option<
    M3u8StreamView,
> {
    if return_this is None || return_this == Some(true) {
        Some(
            M3u8StreamView {
                quality: if master.quality is None {
                    Some("Auto"@)
                } else {
                    master.quality
                },
                ..master
            },
        )
    } else {
        None
    }
}

/// The entry that a playlist lists for itself, if any.
pub fn master_entry(master: &M3u8Stream, return_this: Option<bool>) -> (r: Option<M3u8Stream>)
    ensures
        r.is_some() == master_entry_spec(master@, return_this).is_some(),
        r matches Some(s) ==> s@ == master_entry_spec(master@, return_this)->0,
{
    if return_this.is_none() || (return_this.is_some() && return_this.unwrap()) {
        let mut c = master.copy();
        if c.quality.is_none() {
            c.quality = Some(String::from_str("Auto"));
        }
        Some(c)
    } else {
        None
    }
}


/// The pattern that finds the variant streams of a master playlist: after each
/// `#EXT-X-STREAM-INF:` tag, the height of its `RESOLUTION` (group 1) and the URI
/// that follows the tag (group 2, or group 3 when the tag has no resolution).
pub const QUALITY_PATTERN: &'static str =
    "#EXT-X-STREAM-INF:(?:(?:.*?(?:RESOLUTION=\\d+x(\\d+)).*?\\s+(.*))|(?:.*?\\s+(.*)))";

/// A variant stream that a master playlist lists. When `expand` holds, the
/// stream is itself an `m3u8` playlist whose own variants come first.
#[derive(Debug)]
pub struct PlaylistEntry {
    pub stream: M3u8Stream,
    pub expand: bool,
}

/// Capture group `i`, or `None` when the match has no such group.
pub open spec fn group_at(g: Seq<Option<Seq<char>>>, i: int) -> Option<Seq<char>> {
    if 0 <= i < g.len() {
        g[i]
    } else {
        None
    }
}

/// The stream URI that a match of the quality pattern found.
pub open spec fn capture_link(g: Seq<Option<Seq<char>>>) -> Option<Seq<char>> {
    match group_at(g, 2) {
        Some(l) => Some(l),
        None => group_at(g, 3),
    }
}

/// The URL, quality and `expand` flag of the entry for one match, if it found a URI:
/// an `m3u8` URI is made absolute against `parent` and expanded, others are kept
/// as they are.
pub open spec fn entry_of(g: Seq<Option<Seq<char>>>, parent: Seq<char>) -> Option<
    (Seq<char>, Option<Seq<char>>, bool),
> {
    match capture_link(g) {
        Some(l) => {
            let expand = absolute_extension(l) == Some("m3u8"@);
            Some(
                (
                    if expand {
                        resolve_link_spec(parent, l)
                    } else {
                        l
                    },
                    group_at(g, 1),
                    expand,
                ),
            )
        },
        None => None,
    }
}

/// A match whose URI names an `m3u8` playlist gives an entry that is expanded,
/// whether the URI is relative (then made absolute against `parent`) or absolute
/// (then kept as it is); a match whose URI names anything else gives an entry that
/// is not expanded and keeps its URI; either way the quality is group 1. A match
/// without a URI gives no entry.
pub proof fn lemma_entry_expansion(g: Seq<Option<Seq<char>>>, parent: Seq<char>)
    ensures
        capture_link(g) is None ==> entry_of(g, parent) is None,
        capture_link(g) matches Some(l) ==> entry_of(g, parent) matches Some(e) && e.1 == group_at(
            g,
            1,
        ) && (absolute_extension(l) == Some("m3u8"@) ==> e.2 && (is_partial_url_spec(l) ==> e.0
            == parent + "/"@ + l) && (!is_partial_url_spec(l) ==> e.0 == l)) && (absolute_extension(
            l,
        ) != Some("m3u8"@) ==> !e.2 && e.0 == l),
{
}

/// The entries for the matches `caps`, in order.
pub open spec fn entries_spec(caps: Seq<Seq<Option<Seq<char>>>>, parent: Seq<char>) -> Seq<
    (Seq<char>, Option<Seq<char>>, bool),
>
    decreases caps.len(),
{
    if caps.len() == 0 {
        Seq::empty()
    } else {
        let rest = entries_spec(caps.drop_last(), parent);
        match entry_of(caps.last(), parent) {
            Some(e) => rest.push(e),
            None => rest,
        }
    }
}

/// Entry `e` as a stream with the given headers.
pub open spec fn entry_stream(
    e: (Seq<char>, Option<Seq<char>>, bool),
    headers: Option<Seq<(Seq<char>, Seq<char>)>>,
) -> M3u8StreamView {
    M3u8StreamView { url: e.0, quality: e.1, resolution: None, headers }
}

/// The entries `r` are those that `entries_spec` gives for `caps`, with `headers`.
pub open spec fn entries_match(
    r: Seq<PlaylistEntry>,
    caps: Seq<Seq<Option<Seq<char>>>>,
    parent: Seq<char>,
    headers: Option<Seq<(Seq<char>, Seq<char>)>>,
) -> bool {
    let es = entries_spec(caps, parent);
    &&& r.len() == es.len()
    &&& forall|i: int|
        0 <= i < r.len() ==> #[trigger] r[i].stream@ == entry_stream(es[i], headers) && r[i].expand
            == es[i].2
}

fn group_copy(g: &Vec<Option<String>>, i: usize) -> (r: Option<String>)
    ensures
        r.deep_view() == group_at(g.deep_view(), i as int),
{
    if i < g.len() {
        copy_opt_string(&g[i])
    } else {
        None
    }
}

/// The entries for the matches `caps` of the quality pattern in a playlist whose
/// directory URL is `parent`, each with a copy of `headers`.
pub fn entries_from_captures(
    caps: &Vec<Vec<Option<String>>>,
    parent: &str,
    headers: &Option<Vec<(String, String)>>,
) -> (r: Vec<PlaylistEntry>)
    ensures
        entries_match(r@, caps.deep_view(), parent@, headers.deep_view()),
{
    let mut r: Vec<PlaylistEntry> = Vec::new();
    let mut i: usize = 0;
    while i < caps.len()
        invariant
            i <= caps.len(),
            entries_match(r@, caps.deep_view().take(i as int), parent@, headers.deep_view()),
        decreases caps.len() - i,
    {
        let ghost g = caps.deep_view()[i as int];
        let ghost prev = caps.deep_view().take(i as int);
        assert(caps.deep_view().take(i + 1).drop_last() =~= prev);
        assert(caps.deep_view().take(i + 1).last() == g);
        let quality = group_copy(&caps[i], 1);
        let mut link = group_copy(&caps[i], 2);
        if link.is_none() {
            link = group_copy(&caps[i], 3);
        }
        assert(link.deep_view() == capture_link(g));
        match link {
            Some(l) => {
                let ext = get_absolute_extension(l.as_str());
                let expand = match &ext {
                    Some(e) => str_eq(e.as_str(), "m3u8"),
                    None => false,
                };
                assert(expand == (absolute_extension(l@) == Some("m3u8"@)));
                let url = if expand {
                    resolve_link(parent, l.as_str())
                } else {
                    l
                };
                let ghost e = entry_of(g, parent@)->0;
                let entry = PlaylistEntry {
                    stream: M3u8Stream {
                        url,
                        quality,
                        resolution: None,
                        headers: copy_opt_pairs(headers),
                    },
                    expand,
                };
                assert(entry.stream@ == entry_stream(e, headers.deep_view()));
                r.push(entry);
            },
            None => {},
        }
        i = i + 1;
    }
    assert(caps.deep_view().take(caps.len() as int) =~= caps.deep_view());
    r
}

/// The variant streams that the master playlist `text`, found at the URL of
/// `master`, lists; each carries the headers of `master`.
pub fn playlist_entries(text: &str, master: &M3u8Stream) -> (r: Result<Vec<PlaylistEntry>, M3u8Error>)
    ensures
        regex_all_captures(QUALITY_PATTERN@, text@) is None ==> r matches Err(
            M3u8Error::InvalidPattern,
        ),
        regex_all_captures(QUALITY_PATTERN@, text@) matches Some(caps) ==> r matches Ok(es)
            && entries_match(es@, caps, parent_url_spec(master.url@), master.headers.deep_view()),
{
    let parent = get_parent_url(master.url.as_str());
    match regex_captures_all(QUALITY_PATTERN, text) {
        Some(caps) => Ok(entries_from_captures(&caps, parent.as_str(), &master.headers)),
        None => Err(M3u8Error::InvalidPattern),
    }
}


/// The streams that the entries `entries` give, where `expansions[i]` are the
/// variants found in entry `i`'s own playlist (read only where it is expanded):
/// for each entry in order, its expansion first, then the entry itself.
pub open spec fn entries_output(entries: Seq<PlaylistEntry>, expansions: Seq<Seq<M3u8StreamView>>) -> Seq<
    M3u8StreamView,
>
    decreases entries.len(),
{
    if entries.len() == 0 {
        Seq::empty()
    } else {
        let e = entries.last();
        entries_output(entries.drop_last(), expansions) + (if e.expand {
            expansions[entries.len() - 1]
        } else {
            Seq::empty()
        }) + seq![e.stream@]
    }
}

/// The streams of a playlist: its own entry first, where it is listed, then what
/// its entries give.
pub open spec fn assembled_spec(
    own: Option<M3u8StreamView>,
    entries: Seq<PlaylistEntry>,
    expansions: Seq<Seq<M3u8StreamView>>,
) -> Seq<M3u8StreamView> {
    (match own {
        Some(s) => seq![s],
        None => Seq::empty(),
    }) + entries_output(entries, expansions)
}

/// The model of a playlist's own entry.
pub open spec fn own_view(own: Option<M3u8Stream>) -> Option<M3u8StreamView> {
    match own {
        Some(s) => Some(s@),
        None => None,
    }
}

/// The models of the expansions.
pub open spec fn expansion_views(expansions: Seq<Vec<M3u8Stream>>) -> Seq<Seq<M3u8StreamView>> {
    expansions.map_values(|v: Vec<M3u8Stream>| views(v@))
}

fn append_streams(r: &mut Vec<M3u8Stream>, more: &Vec<M3u8Stream>)
    ensures
        views(final(r)@) == views(old(r)@) + views(more@),
{
    let ghost base = views(r@);
    let mut j: usize = 0;
    assert(views(r@) =~= base + views(more@).take(0));
    while j < more.len()
        invariant
            j <= more.len(),
            views(r@) == base + views(more@).take(j as int),
        decreases more.len() - j,
    {
        let ghost before = r@;
        r.push(more[j].copy());
        assert(r@ == before.push(r@[r@.len() - 1]));
        assert(views(r@) =~= views(before).push(more@[j as int]@));
        assert(views(more@).take(j + 1) =~= views(more@).take(j as int).push(more@[j as int]@));
        j = j + 1;
    }
    assert(views(more@).take(more.len() as int) =~= views(more@));
}

/// The streams of a playlist in the order the tool lists them: the playlist's own
/// entry `own` (from `master_entry`), then for each of its `entries` the variants
/// of its own playlist, where it is expanded, followed by the entry itself.
/// `expansions[i]` holds what fetching entry `i`'s playlist found.
pub fn assemble_streams(
    own: Option<M3u8Stream>,
    entries: &Vec<PlaylistEntry>,
    expansions: &Vec<Vec<M3u8Stream>>,
) -> (r: Vec<M3u8Stream>)
    requires
        expansions@.len() == entries@.len(),
    ensures
        views(r@) == assembled_spec(own_view(own), entries@, expansion_views(expansions@)),
{
    let ghost ov = own_view(own);
    let ghost ev = expansion_views(expansions@);
    let mut r: Vec<M3u8Stream> = Vec::new();
    match own {
        Some(s) => {
            r.push(s);
        },
        None => {},
    }
    let ghost head = views(r@);
    assert(head =~= match ov {
        Some(s) => seq![s],
        None => Seq::<M3u8StreamView>::empty(),
    });
    let mut i: usize = 0;
    assert(entries@.take(0) =~= Seq::<PlaylistEntry>::empty());
    assert(views(r@) =~= head + entries_output(entries@.take(0), ev));
    while i < entries.len()
        invariant
            i <= entries.len(),
            expansions@.len() == entries@.len(),
            ev == expansion_views(expansions@),
            views(r@) == head + entries_output(entries@.take(i as int), ev),
        decreases entries.len() - i,
    {
        assert(entries@.take(i + 1).drop_last() =~= entries@.take(i as int));
        assert(entries@.take(i + 1).last() == entries@[i as int]);
        let ghost mid = views(r@);
        if entries[i].expand {
            assert(ev[i as int] == views(expansions@[i as int]@));
            append_streams(&mut r, &expansions[i]);
        } else {
            assert(views(r@) =~= mid + Seq::<M3u8StreamView>::empty());
        }
        let ghost mid2 = views(r@);
        let ghost before = r@;
        r.push(entries[i].stream.copy());
        assert(r@ == before.push(r@[r@.len() - 1]));
        assert(views(r@) =~= mid2.push(entries@[i as int].stream@));
        assert(views(r@) =~= head + entries_output(entries@.take(i + 1), ev));
        i = i + 1;
    }
    assert(entries@.take(entries.len() as int) =~= entries@);
    r
}

} // verus!
