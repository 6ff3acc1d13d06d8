//! Episode ranges and the lists that the commands work on.

use vstd::prelude::*;
use crate::types::{AnimeEpisode, AnimeEpisodeView, SearchResult, StreamLink, views};
use crate::text::{
    int_to_decimal, lemma_split_join, lemma_split_nonempty, parse_i32, str_eq, usize_to_string, parse_i32_spec, split_char, split_seq, trim, trim_seq,
};

verus! {

/// `s` with every value after its first occurrence left out.
pub open spec fn dedup_seq(s: Seq<i32>) -> Seq<i32>
    decreases s.len(),
{
    if s.len() == 0 {
        s
    } else {
        let d = dedup_seq(s.drop_last());
        if d.contains(s.last()) {
            d
        } else {
            d.push(s.last())
        }
    }
}

/// Each element of `s` is smaller than the next.
pub open spec fn strictly_increasing(s: Seq<i32>) -> bool {
    forall|i: int, j: int| 0 <= i < j < s.len() ==> s[i] < s[j]
}

/// `r` lists the values of `s`, each once, in ascending order.
pub open spec fn sorted_set_of(r: Seq<i32>, s: Seq<i32>) -> bool {
    &&& strictly_increasing(r)
    &&& forall|x: i32| r.contains(x) <==> s.contains(x)
}

/// What is left of `s` after `dedup` holds each value of `s` exactly once.
pub proof fn lemma_dedup_seq(s: Seq<i32>)
    ensures
        dedup_seq(s).no_duplicates(),
        forall|x: i32| dedup_seq(s).contains(x) <==> s.contains(x),
    decreases s.len(),
{
    if s.len() > 0 {
        let p = s.drop_last();
        lemma_dedup_seq(p);
        let d = dedup_seq(p);
        assert forall|x: i32| s.contains(x) <==> (p.contains(x) || x == s.last()) by {
            if s.contains(x) {
                let k = choose|k: int| 0 <= k < s.len() && s[k] == x;
                if k < s.len() - 1 {
                    assert(p[k] == x);
                }
            }
            if p.contains(x) {
                let k = choose|k: int| 0 <= k < p.len() && p[k] == x;
                assert(s[k] == x);
            }
            if x == s.last() {
                assert(s[s.len() - 1] == x);
            }
        }
        if !d.contains(s.last()) {
            let e = d.push(s.last());
            assert forall|x: i32| e.contains(x) <==> (d.contains(x) || x == s.last()) by {
                if e.contains(x) {
                    let k = choose|k: int| 0 <= k < e.len() && e[k] == x;
                    if k < d.len() {
                        assert(d[k] == x);
                    }
                }
                if d.contains(x) {
                    let k = choose|k: int| 0 <= k < d.len() && d[k] == x;
                    assert(e[k] == x);
                }
                if x == s.last() {
                    assert(e[e.len() - 1] == x);
                }
            }
            assert forall|i: int, j: int| 0 <= i < e.len() && 0 <= j < e.len() && i != j implies e[i]
                != e[j] by {
                if i < d.len() && j < d.len() {
                    assert(e[i] == d[i] && e[j] == d[j]);
                } else if i < d.len() {
                    assert(e[i] == d[i]);
                } else {
                    assert(e[j] == d[j]);
                }
            }
        }
    }
}

proof fn lemma_dedup_no_duplicates(s: Seq<i32>)
    requires
        s.no_duplicates(),
    ensures
        dedup_seq(s) == s,
    decreases s.len(),
{
    if s.len() > 0 {
        let p = s.drop_last();
        assert(p.no_duplicates()) by {
            assert forall|i: int, j: int| 0 <= i < p.len() && 0 <= j < p.len() && i != j implies p[i]
                != p[j] by {
                assert(p[i] == s[i] && p[j] == s[j]);
            }
        }
        lemma_dedup_no_duplicates(p);
        lemma_dedup_seq(p);
        assert(!p.contains(s.last())) by {
            if p.contains(s.last()) {
                let k = choose|k: int| 0 <= k < p.len() && p[k] == s.last();
                assert(s[k] == s[s.len() - 1]);
            }
        }
        assert(p.push(s.last()) =~= s);
    }
}

/// Dropping duplicates a second time changes nothing.
pub proof fn lemma_dedup_idempotent(s: Seq<i32>)
    ensures
        dedup_seq(dedup_seq(s)) == dedup_seq(s),
{
    lemma_dedup_seq(s);
    lemma_dedup_no_duplicates(dedup_seq(s));
}

/// `v.contains(&x)`.
pub fn contains_i32(v: &Vec<i32>, x: i32) -> (b: bool)
    ensures
        b == v@.contains(x),
{
    let mut i: usize = 0;
    while i < v.len()
        invariant
            i <= v.len(),
            forall|k: int| 0 <= k < i ==> v@[k] != x,
        decreases v.len() - i,
    {
        if v[i] == x {
            assert(v@[i as int] == x);
            return true;
        }
        i = i + 1;
    }
    false
}

/// Keeps the first occurrence of each value of `v`, in order.
pub fn dedup(v: &mut Vec<i32>)
    ensures
        final(v)@ == dedup_seq(old(v)@),
{
    let mut out: Vec<i32> = Vec::new();
    let mut i: usize = 0;
    assert(old(v)@.take(0) =~= Seq::<i32>::empty());
    while i < v.len()
        invariant
            i <= v.len(),
            v@ == old(v)@,
            out@ == dedup_seq(v@.take(i as int)),
        decreases v.len() - i,
    {
        let x = v[i];
        let ghost t = v@.take(i + 1);
        assert(t.drop_last() =~= v@.take(i as int));
        assert(t.last() == x);
        if !contains_i32(&out, x) {
            out.push(x);
        }
        i = i + 1;
    }
    assert(v@.take(v.len() as int) =~= v@);
    *v = out;
}

/// Sorts the distinct values `v` into ascending order.
fn sort_distinct(v: Vec<i32>) -> (r: Vec<i32>)
    requires
        v@.no_duplicates(),
    ensures
        sorted_set_of(r@, v@),
{
    let mut out: Vec<i32> = Vec::new();
    let mut i: usize = 0;
    while i < v.len()
        invariant
            i <= v.len(),
            v@.no_duplicates(),
            strictly_increasing(out@),
            forall|y: i32| out@.contains(y) <==> v@.take(i as int).contains(y),
        decreases v.len() - i,
    {
        let x = v[i];
        assert(!v@.take(i as int).contains(x)) by {
            if v@.take(i as int).contains(x) {
                let k = choose|k: int| 0 <= k < i && v@.take(i as int)[k] == x;
                assert(v@[k] == v@[i as int]);
            }
        }
        let mut p: usize = 0;
        while p < out.len() && out[p] < x
            invariant
                p <= out.len(),
                forall|k: int| 0 <= k < p ==> out@[k] < x,
            decreases out.len() - p,
        {
            p = p + 1;
        }
        assert(!out@.contains(x));
        assert(p < out.len() ==> out@[p as int] > x) by {
            if p < out.len() {
                assert(out@[p as int] != x);
            }
        }
        let ghost before = out@;
        out.insert(p, x);
        assert(out@ == before.insert(p as int, x));
        assert forall|a: int, b: int| 0 <= a < b < out@.len() implies out@[a] < out@[b] by {
            if b < p {
            } else if b == p {
            } else if a < p {
                assert(out@[b] == before[b - 1]);
            } else if a == p {
                assert(out@[b] == before[b - 1]);
                assert(before[p as int] > x);
                if b - 1 > p {
                    assert(before[p as int] < before[b - 1]);
                }
            } else {
                assert(out@[a] == before[a - 1]);
                assert(out@[b] == before[b - 1]);
            }
        }
        assert forall|y: i32| out@.contains(y) <==> v@.take(i + 1).contains(y) by {
            let t = v@.take(i + 1);
            assert(t =~= v@.take(i as int).push(x));
            if out@.contains(y) {
                let k = choose|k: int| 0 <= k < out@.len() && out@[k] == y;
                if k < p {
                    assert(before[k] == y);
                    assert(before.contains(y));
                } else if k > p {
                    assert(before[k - 1] == y);
                    assert(before.contains(y));
                }
                if y != x {
                    let m = choose|m: int| 0 <= m < i && v@.take(i as int)[m] == y;
                    assert(t[m] == y);
                } else {
                    assert(t[i as int] == y);
                }
            }
            if t.contains(y) {
                let m = choose|m: int| 0 <= m < t.len() && t[m] == y;
                if m < i {
                    assert(v@.take(i as int)[m] == y);
                    assert(v@.take(i as int).contains(y));
                    assert(before.contains(y));
                    let k = choose|k: int| 0 <= k < before.len() && before[k] == y;
                    if k < p {
                        assert(out@[k] == y);
                    } else {
                        assert(out@[k + 1] == y);
                    }
                } else {
                    assert(out@[p as int] == x);
                }
            }
        }
        i = i + 1;
    }
    assert(v@.take(v.len() as int) =~= v@);
    out
}

/// `v`, its duplicates dropped, in ascending order.
pub fn dedup_sorted(v: Vec<i32>) -> (r: Vec<i32>)
    ensures
        sorted_set_of(r@, v@),
{
    let mut w = v;
    let ghost orig = w@;
    dedup(&mut w);
    proof {
        lemma_dedup_seq(orig);
    }
    let r = sort_distinct(w);
    r
}


/// A part of an episode range that was passed over.
#[derive(Debug)]
pub enum RangeIssue {
    /// A `:` range with neither a start nor an end.
    BothEmpty,
    /// A part with more than one `:`; its `:`-separated fields.
    Invalid(Vec<String>),
}

/// The model of a range issue.
pub enum RangeIssueView {
    BothEmpty,
    Invalid(Seq<Seq<char>>),
}

impl View for RangeIssue {
    type V = RangeIssueView;

    open spec fn view(&self) -> RangeIssueView {
        match self {
            RangeIssue::BothEmpty => RangeIssueView::BothEmpty,
            RangeIssue::Invalid(v) => RangeIssueView::Invalid(v.deep_view()),
        }
    }
}

/// The episodes that an episode range asks for, and the parts of it that were
/// passed over.
#[derive(Debug)]
pub struct EpisodeRange {
    pub episodes: Vec<i32>,
    pub issues: Vec<RangeIssue>,
}

/// The models of a list of issues.
pub open spec fn issue_views(s: Seq<RangeIssue>) -> Seq<RangeIssueView> {
    s.map_values(|x: RangeIssue| x@)
}

/// The trimmed `:`-separated fields of one trimmed `,`-separated part of a range.
pub open spec fn range_parts(piece: Seq<char>) -> Seq<Seq<char>> {
    split_seq(trim_seq(piece), ':').map_values(|p: Seq<char>| trim_seq(p))
}

/// The numbers `a..=b`.
pub open spec fn inclusive_range(a: int, b: int) -> Seq<i32> {
    Seq::new(
        if a <= b {
            (b - a + 1) as nat
        } else {
            0
        },
        |k: int| (a + k) as i32,
    )
}

/// The episodes that one part asks for: `n` asks for `n`; `a:b` for `a..=b`;
/// `:b` for `1..=b`; `a:` for `a..=latest`; `:` and parts with more fields for
/// none. `None` where a number does not parse, which the tool does not accept.
pub open spec fn piece_episodes(piece: Seq<char>, latest: i32) -> Option<Seq<i32>> {
    let r = range_parts(piece);
    if r.len() == 1 {
        match parse_i32_spec(r[0]) {
            Some(v) => Some(seq![v]),
            None => None,
        }
    } else if r.len() == 2 {
        if r[0].len() == 0 && r[1].len() == 0 {
            Some(Seq::empty())
        } else if r[0].len() == 0 {
            match parse_i32_spec(r[1]) {
                Some(e) => Some(inclusive_range(1, e as int)),
                None => None,
            }
        } else if r[1].len() == 0 {
            match parse_i32_spec(r[0]) {
                Some(a) => Some(inclusive_range(a as int, latest as int)),
                None => None,
            }
        } else {
            match (parse_i32_spec(r[0]), parse_i32_spec(r[1])) {
                (Some(a), Some(e)) => Some(inclusive_range(a as int, e as int)),
                _ => None,
            }
        }
    } else {
        Some(Seq::empty())
    }
}

/// The issue that one part of a range raises, if any.
pub open spec fn piece_issue(piece: Seq<char>) -> Option<RangeIssueView> {
    let r = range_parts(piece);
    if r.len() == 2 && r[0].len() == 0 && r[1].len() == 0 {
        Some(RangeIssueView::BothEmpty)
    } else if r.len() > 2 {
        Some(RangeIssueView::Invalid(r))
    } else {
        None
    }
}

/// Every number in every part of the range parses as an `i32`.
pub open spec fn episode_range_valid(range: Seq<char>) -> bool {
    forall|i: int|
        0 <= i < split_seq(range, ',').len() ==> #[trigger] piece_episodes(
            split_seq(range, ',')[i],
            0,
        ) is Some
}

/// The episodes that the parts ask for, in order, with repetitions.
pub open spec fn requested_episodes(pieces: Seq<Seq<char>>, latest: i32) -> Seq<i32>
    decreases pieces.len(),
{
    if pieces.len() == 0 {
        Seq::empty()
    } else {
        requested_episodes(pieces.drop_last(), latest) + match piece_episodes(
            pieces.last(),
            latest,
        ) {
            Some(e) => e,
            None => Seq::empty(),
        }
    }
}

/// The issues that the parts raise, in order.
pub open spec fn range_issues(pieces: Seq<Seq<char>>) -> Seq<RangeIssueView>
    decreases pieces.len(),
{
    if pieces.len() == 0 {
        Seq::empty()
    } else {
        range_issues(pieces.drop_last()) + match piece_issue(pieces.last()) {
            Some(i) => seq![i],
            None => Seq::empty(),
        }
    }
}

proof fn lemma_piece_episodes_latest(piece: Seq<char>, a: i32, b: i32)
    ensures
        piece_episodes(piece, a) is Some == piece_episodes(piece, b) is Some,
{
}

fn range_parts_exec(piece: &str) -> (r: Vec<String>)
    ensures
        r.deep_view() == range_parts(piece@),
{
    let t = trim(piece);
    let raw = split_char(t.as_str(), ':');
    let mut out: Vec<String> = Vec::new();
    let mut i: usize = 0;
    while i < raw.len()
        invariant
            i <= raw.len(),
            raw.deep_view() == split_seq(t@, ':'),
            out.deep_view() =~= raw.deep_view().take(i as int).map_values(
                |p: Seq<char>| trim_seq(p),
            ),
        decreases raw.len() - i,
    {
        let x = trim(raw[i].as_str());
        let ghost before = out.deep_view();
        out.push(x);
        assert(out.deep_view() =~= before.push(x@));
        assert(raw.deep_view().take(i + 1).map_values(|p: Seq<char>| trim_seq(p)) =~= raw.deep_view().take(
            i as int,
        ).map_values(|p: Seq<char>| trim_seq(p)).push(trim_seq(raw.deep_view()[i as int])));
        i = i + 1;
    }
    assert(raw.deep_view().take(raw.len() as int) =~= raw.deep_view());
    out
}

/// Appends the numbers `a..=b`.
fn push_range(out: &mut Vec<i32>, a: i32, b: i32)
    ensures
        final(out)@ == old(out)@ + inclusive_range(a as int, b as int),
{
    if a > b {
        assert(inclusive_range(a as int, b as int) =~= Seq::<i32>::empty());
        assert(out@ =~= old(out)@ + inclusive_range(a as int, b as int));
        return ;
    }
    let mut i: i32 = a;
    assert(inclusive_range(a as int, a as int - 1) =~= Seq::<i32>::empty());
    assert(out@ =~= old(out)@ + inclusive_range(a as int, a as int - 1));
    loop
        invariant
            a <= i <= b,
            out@ == old(out)@ + inclusive_range(a as int, i as int - 1),
        decreases b - i,
    {
        let ghost before = out@;
        out.push(i);
        assert(inclusive_range(a as int, i as int) =~= inclusive_range(a as int, i as int - 1).push(
            i,
        ));
        assert(out@ =~= old(out)@ + inclusive_range(a as int, i as int));
        if i == b {
            return ;
        }
        i = i + 1;
    }
}

/// Adds the episodes and the issue of one part of a range.
fn add_piece(piece: &str, latest: i32, out: &mut Vec<i32>, issues: &mut Vec<RangeIssue>)
    requires
        piece_episodes(piece@, latest) is Some,
    ensures
        final(out)@ == old(out)@ + piece_episodes(piece@, latest)->0,
        issue_views(final(issues)@) == issue_views(old(issues)@) + match piece_issue(piece@) {
            Some(i) => seq![i],
            None => Seq::<RangeIssueView>::empty(),
        },
{
    let ghost old_issues = issue_views(issues@);
    let range = range_parts_exec(piece);
    let ghost r = range_parts(piece@);
    let ghost expected = match piece_issue(piece@) {
        Some(i) => seq![i],
        None => Seq::<RangeIssueView>::empty(),
    };
    proof {
        lemma_split_nonempty(trim_seq(piece@), ':');
    }
    assert(r.len() == range.len());
    assert(range.len() >= 1 ==> r[0] == range[0]@);
    assert(range.len() >= 2 ==> r[1] == range[1]@);
    if range.len() == 1 {
        match parse_i32(range[0].as_str()) {
            Some(v) => {
                out.push(v);
                assert(out@ =~= old(out)@ + seq![v]);
            },
            None => {},
        }
        assert(issue_views(issues@) =~= old_issues + Seq::<RangeIssueView>::empty());
        assert(issue_views(issues@) == old_issues + expected);
    } else if range.len() == 2 {
        let n0 = range[0].as_str().unicode_len();
        let n1 = range[1].as_str().unicode_len();
        assert(n0 == r[0].len() && n1 == r[1].len());
        if n0 == 0 && n1 == 0 {
            issues.push(RangeIssue::BothEmpty);
            assert(issue_views(issues@) =~= old_issues + seq![
                RangeIssueView::BothEmpty,
            ]);
            assert(issue_views(issues@) == old_issues + expected);
            assert(out@ =~= old(out)@ + Seq::<i32>::empty());
        } else {
            if n0 == 0 {
                match parse_i32(range[1].as_str()) {
                    Some(e) => push_range(out, 1, e),
                    None => {},
                }
            } else if n1 == 0 {
                match parse_i32(range[0].as_str()) {
                    Some(a) => push_range(out, a, latest),
                    None => {},
                }
            } else {
                match (parse_i32(range[0].as_str()), parse_i32(range[1].as_str())) {
                    (Some(a), Some(e)) => push_range(out, a, e),
                    _ => {},
                }
            }
            assert(issue_views(issues@) =~= old_issues + Seq::<
                RangeIssueView,
            >::empty());
            assert(issue_views(issues@) == old_issues + expected);
        }
    } else {
        let ghost parts = range.deep_view();
        issues.push(RangeIssue::Invalid(range));
        assert(issue_views(issues@) =~= old_issues + seq![
            RangeIssueView::Invalid(r),
        ]);
        assert(issue_views(issues@) == old_issues + expected);
        assert(out@ =~= old(out)@ + Seq::<i32>::empty());
    }
}

fn piece_is_valid(piece: &str) -> (b: bool)
    ensures
        b == piece_episodes(piece@, 0) is Some,
{
    let range = range_parts_exec(piece);
    let ghost r = range_parts(piece@);
    proof {
        lemma_split_nonempty(trim_seq(piece@), ':');
    }
    assert(range.len() >= 1 ==> r[0] == range[0]@);
    assert(range.len() >= 2 ==> r[1] == range[1]@);
    if range.len() == 1 {
        parse_i32(range[0].as_str()).is_some()
    } else if range.len() == 2 {
        let n0 = range[0].as_str().unicode_len();
        let n1 = range[1].as_str().unicode_len();
        if n0 == 0 && n1 == 0 {
            true
        } else if n0 == 0 {
            parse_i32(range[1].as_str()).is_some()
        } else if n1 == 0 {
            parse_i32(range[0].as_str()).is_some()
        } else {
            parse_i32(range[0].as_str()).is_some() && parse_i32(range[1].as_str()).is_some()
        }
    } else {
        true
    }
}

/// Whether every number in `episode_range` parses, as `parse_episode_range` needs.
pub fn episode_range_is_valid(episode_range: &str) -> (b: bool)
    ensures
        b == episode_range_valid(episode_range@),
{
    let pieces = split_char(episode_range, ',');
    let mut i: usize = 0;
    while i < pieces.len()
        invariant
            i <= pieces.len(),
            pieces.deep_view() == split_seq(episode_range@, ','),
            forall|k: int| 0 <= k < i ==> #[trigger] piece_episodes(pieces.deep_view()[k], 0) is Some,
        decreases pieces.len() - i,
    {
        if !piece_is_valid(pieces[i].as_str()) {
            assert(!(piece_episodes(pieces.deep_view()[i as int], 0) is Some));
            return false;
        }
        i = i + 1;
    }
    true
}

/// The episodes that `episode_range` asks for, ascending and each once, and the
/// parts of it that were passed over. The range is a `,`-separated list of parts,
/// each a number `n`, or `a:b`, `:b` (from the first episode) or `a:` (up to
/// `latest_ep`), all inclusive.
pub fn parse_episode_range_report(episode_range: &str, latest_ep: i32) -> (r: EpisodeRange)
    requires
        episode_range_valid(episode_range@),
    ensures
        sorted_set_of(r.episodes@, requested_episodes(split_seq(episode_range@, ','), latest_ep)),
        issue_views(r.issues@) == range_issues(split_seq(episode_range@, ',')),
{
    let pieces = split_char(episode_range, ',');
    let ghost ps = pieces.deep_view();
    let mut collected: Vec<i32> = Vec::new();
    let mut issues: Vec<RangeIssue> = Vec::new();
    let mut i: usize = 0;
    assert(ps.take(0) =~= Seq::<Seq<char>>::empty());
    assert(issue_views(issues@) =~= Seq::<RangeIssueView>::empty());
    while i < pieces.len()
        invariant
            i <= pieces.len(),
            ps == pieces.deep_view(),
            ps == split_seq(episode_range@, ','),
            episode_range_valid(episode_range@),
            collected@ == requested_episodes(ps.take(i as int), latest_ep),
            issue_views(issues@) == range_issues(ps.take(i as int)),
        decreases pieces.len() - i,
    {
        assert(piece_episodes(ps[i as int], 0) is Some);
        proof {
            lemma_piece_episodes_latest(ps[i as int], 0, latest_ep);
        }
        assert(ps.take(i + 1).drop_last() =~= ps.take(i as int));
        assert(ps.take(i + 1).last() == ps[i as int]);
        add_piece(pieces[i].as_str(), latest_ep, &mut collected, &mut issues);
        i = i + 1;
    }
    assert(ps.take(pieces.len() as int) =~= ps);
    EpisodeRange { episodes: dedup_sorted(collected), issues }
}

/// The episodes that `episode_range` asks for, ascending and each once.
pub fn parse_episode_range(episode_range: &str, latest_ep: i32) -> (r: Vec<i32>)
    requires
        episode_range_valid(episode_range@),
    ensures
        sorted_set_of(r@, requested_episodes(split_seq(episode_range@, ','), latest_ep)),
{
    parse_episode_range_report(episode_range, latest_ep).episodes
}


/// The range `a` and the range `b` joined by a `,`.
pub open spec fn joined_range(a: Seq<char>, b: Seq<char>) -> Seq<char> {
    a + seq![','] + b
}

/// The episodes that one part asks for, empty where a number does not parse.
pub open spec fn piece_requested(piece: Seq<char>, latest: i32) -> Seq<i32> {
    match piece_episodes(piece, latest) {
        Some(e) => e,
        None => Seq::empty(),
    }
}

proof fn lemma_requested_concat(p: Seq<Seq<char>>, q: Seq<Seq<char>>, latest: i32)
    ensures
        requested_episodes(p + q, latest) == requested_episodes(p, latest) + requested_episodes(
            q,
            latest,
        ),
    decreases q.len(),
{
    if q.len() == 0 {
        assert(p + q =~= p);
        assert(requested_episodes(p, latest) + Seq::<i32>::empty() =~= requested_episodes(p, latest));
    } else {
        assert((p + q).drop_last() =~= p + q.drop_last());
        assert((p + q).last() == q.last());
        lemma_requested_concat(p, q.drop_last(), latest);
        let e = piece_requested(q.last(), latest);
        assert(requested_episodes(p + q, latest) == requested_episodes(p + q.drop_last(), latest) + e);
        assert(requested_episodes(q, latest) == requested_episodes(q.drop_last(), latest) + e);
        assert(requested_episodes(p, latest) + requested_episodes(q.drop_last(), latest) + e
            =~= requested_episodes(p, latest) + (requested_episodes(q.drop_last(), latest) + e));
    }
}

/// Joining two ranges with `,` joins their parts: the result is valid exactly when
/// both ranges are, and it asks for the episodes of `a` and then those of `b`.
pub proof fn lemma_range_join_parts(a: Seq<char>, b: Seq<char>, latest: i32)
    ensures
        split_seq(joined_range(a, b), ',') == split_seq(a, ',') + split_seq(b, ','),
        episode_range_valid(joined_range(a, b)) <==> (episode_range_valid(a)
            && episode_range_valid(b)),
        requested_episodes(split_seq(joined_range(a, b), ','), latest) == requested_episodes(
            split_seq(a, ','),
            latest,
        ) + requested_episodes(split_seq(b, ','), latest),
{
    lemma_split_join(a, b, ',');
    let pa = split_seq(a, ',');
    let pb = split_seq(b, ',');
    let p = split_seq(joined_range(a, b), ',');
    assert(p == pa + pb);
    lemma_requested_concat(pa, pb, latest);
    if episode_range_valid(joined_range(a, b)) {
        assert forall|i: int| 0 <= i < pa.len() implies #[trigger] piece_episodes(pa[i], 0) is Some by {
            assert(p[i] == pa[i]);
            assert(piece_episodes(p[i], 0) is Some);
        }
        assert forall|i: int| 0 <= i < pb.len() implies #[trigger] piece_episodes(pb[i], 0) is Some by {
            assert(p[pa.len() + i] == pb[i]);
            assert(piece_episodes(p[pa.len() + i], 0) is Some);
        }
    }
    if episode_range_valid(a) && episode_range_valid(b) {
        assert forall|i: int| 0 <= i < p.len() implies #[trigger] piece_episodes(p[i], 0) is Some by {
            if i < pa.len() {
                assert(p[i] == pa[i]);
                assert(piece_episodes(pa[i], 0) is Some);
            } else {
                assert(p[i] == pb[i - pa.len()]);
                assert(piece_episodes(pb[i - pa.len()], 0) is Some);
            }
        }
    }
}

/// Two ascending duplicate-free lists with the same values are the same list.
pub proof fn lemma_sorted_set_unique(r1: Seq<i32>, r2: Seq<i32>)
    requires
        strictly_increasing(r1),
        strictly_increasing(r2),
        forall|x: i32| r1.contains(x) <==> r2.contains(x),
    ensures
        r1 == r2,
    decreases r1.len(),
{
    if r1.len() == 0 {
        if r2.len() > 0 {
            assert(r2.contains(r2[0]));
        }
        assert(r1 =~= r2);
    } else {
        assert(r1.contains(r1[0]));
        assert(r2.len() > 0);
        assert(r2.contains(r2[0]));
        let k2 = choose|k: int| 0 <= k < r2.len() && r2[k] == r1[0];
        let k1 = choose|k: int| 0 <= k < r1.len() && r1[k] == r2[0];
        assert(r2[0] <= r2[k2]);
        assert(r1[0] <= r1[k1]);
        assert(r1[0] == r2[0]);
        let t1 = r1.drop_first();
        let t2 = r2.drop_first();
        assert forall|x: i32| t1.contains(x) <==> t2.contains(x) by {
            if t1.contains(x) {
                let k = choose|k: int| 0 <= k < t1.len() && t1[k] == x;
                assert(r1[k + 1] == x);
                assert(r1[0] < r1[k + 1]);
                assert(r2.contains(x));
                let j = choose|j: int| 0 <= j < r2.len() && r2[j] == x;
                assert(j != 0);
                assert(t2[j - 1] == x);
            }
            if t2.contains(x) {
                let k = choose|k: int| 0 <= k < t2.len() && t2[k] == x;
                assert(r2[k + 1] == x);
                assert(r2[0] < r2[k + 1]);
                assert(r1.contains(x));
                let j = choose|j: int| 0 <= j < r1.len() && r1[j] == x;
                assert(j != 0);
                assert(t1[j - 1] == x);
            }
        }
        lemma_sorted_set_unique(t1, t2);
        assert(r1 =~= seq![r1[0]] + t1);
        assert(r2 =~= seq![r2[0]] + t2);
    }
}

proof fn lemma_concat_contains(p: Seq<i32>, q: Seq<i32>)
    ensures
        forall|x: i32| (p + q).contains(x) <==> (p.contains(x) || q.contains(x)),
{
    assert forall|x: i32| (p + q).contains(x) <==> (p.contains(x) || q.contains(x)) by {
        if (p + q).contains(x) {
            let k = choose|k: int| 0 <= k < (p + q).len() && (p + q)[k] == x;
            if k < p.len() {
                assert(p[k] == x);
            } else {
                assert(q[k - p.len()] == x);
            }
        }
        if p.contains(x) {
            let k = choose|k: int| 0 <= k < p.len() && p[k] == x;
            assert((p + q)[k] == x);
        }
        if q.contains(x) {
            let k = choose|k: int| 0 <= k < q.len() && q[k] == x;
            assert((p + q)[p.len() + k] == x);
        }
    }
}

/// The result for the range `a,b` holds exactly the episodes of the result for `a`
/// and of the result for `b`.
pub proof fn lemma_range_join_union(
    a: Seq<char>,
    b: Seq<char>,
    latest: i32,
    r: Seq<i32>,
    ra: Seq<i32>,
    rb: Seq<i32>,
)
    requires
        sorted_set_of(ra, requested_episodes(split_seq(a, ','), latest)),
        sorted_set_of(rb, requested_episodes(split_seq(b, ','), latest)),
        sorted_set_of(r, requested_episodes(split_seq(joined_range(a, b), ','), latest)),
    ensures
        forall|x: i32| r.contains(x) <==> (ra.contains(x) || rb.contains(x)),
{
    lemma_range_join_parts(a, b, latest);
    lemma_concat_contains(
        requested_episodes(split_seq(a, ','), latest),
        requested_episodes(split_seq(b, ','), latest),
    );
}

/// The order of the two ranges joined by `,` does not change the result.
pub proof fn lemma_range_join_commutes(
    a: Seq<char>,
    b: Seq<char>,
    latest: i32,
    r1: Seq<i32>,
    r2: Seq<i32>,
)
    requires
        sorted_set_of(r1, requested_episodes(split_seq(joined_range(a, b), ','), latest)),
        sorted_set_of(r2, requested_episodes(split_seq(joined_range(b, a), ','), latest)),
    ensures
        r1 == r2,
{
    let qa = requested_episodes(split_seq(a, ','), latest);
    let qb = requested_episodes(split_seq(b, ','), latest);
    lemma_range_join_parts(a, b, latest);
    lemma_range_join_parts(b, a, latest);
    lemma_concat_contains(qa, qb);
    lemma_concat_contains(qb, qa);
    let q1 = requested_episodes(split_seq(joined_range(a, b), ','), latest);
    let q2 = requested_episodes(split_seq(joined_range(b, a), ','), latest);
    assert(q1 == qa + qb);
    assert(q2 == qb + qa);
    assert forall|x: i32| r1.contains(x) <==> r2.contains(x) by {
        assert(r1.contains(x) <==> q1.contains(x));
        assert(r2.contains(x) <==> q2.contains(x));
        assert(q1.contains(x) <==> (qa.contains(x) || qb.contains(x)));
        assert(q2.contains(x) <==> (qb.contains(x) || qa.contains(x)));
    }
    lemma_sorted_set_unique(r1, r2);
}

/// Repeating a range after a `,` does not change the result.
pub proof fn lemma_range_repeat(a: Seq<char>, latest: i32, r1: Seq<i32>, r2: Seq<i32>)
    requires
        sorted_set_of(r1, requested_episodes(split_seq(joined_range(a, a), ','), latest)),
        sorted_set_of(r2, requested_episodes(split_seq(a, ','), latest)),
    ensures
        r1 == r2,
{
    let qa = requested_episodes(split_seq(a, ','), latest);
    lemma_range_join_parts(a, a, latest);
    lemma_concat_contains(qa, qa);
    let q = requested_episodes(split_seq(joined_range(a, a), ','), latest);
    assert(q == qa + qa);
    assert forall|x: i32| r1.contains(x) <==> r2.contains(x) by {
        assert(r1.contains(x) <==> q.contains(x));
        assert(q.contains(x) <==> qa.contains(x));
    }
    lemma_sorted_set_unique(r1, r2);
}

/// A part of the form `a:`, which runs up to the latest episode.
pub open spec fn piece_open_ended(piece: Seq<char>) -> bool {
    let r = range_parts(piece);
    r.len() == 2 && r[0].len() > 0 && r[1].len() == 0
}

/// Some part of `range` runs up to the latest episode.
pub open spec fn range_open_ended(range: Seq<char>) -> bool {
    exists|i: int| 0 <= i < split_seq(range, ',').len() && #[trigger] piece_open_ended(split_seq(range, ',')[i])
}

proof fn lemma_piece_latest(piece: Seq<char>, l1: i32, l2: i32)
    requires
        l1 <= l2,
    ensures
        forall|x: i32| piece_requested(piece, l1).contains(x) ==> piece_requested(piece, l2).contains(x),
        !piece_open_ended(piece) ==> piece_requested(piece, l1) == piece_requested(piece, l2),
{
    let r = range_parts(piece);
    if piece_open_ended(piece) {
        match parse_i32_spec(r[0]) {
            Some(a) => {
                let e1 = inclusive_range(a as int, l1 as int);
                let e2 = inclusive_range(a as int, l2 as int);
                assert(piece_requested(piece, l1) == e1);
                assert(piece_requested(piece, l2) == e2);
                assert forall|x: i32| e1.contains(x) implies e2.contains(x) by {
                    let k = choose|k: int| 0 <= k < e1.len() && e1[k] == x;
                    assert(e2[k] == x);
                }
            },
            None => {},
        }
    }
}

proof fn lemma_requested_latest(pieces: Seq<Seq<char>>, l1: i32, l2: i32)
    requires
        l1 <= l2,
    ensures
        forall|x: i32| requested_episodes(pieces, l1).contains(x) ==> requested_episodes(pieces, l2).contains(x),
        (forall|i: int| 0 <= i < pieces.len() ==> !#[trigger] piece_open_ended(pieces[i]))
            ==> requested_episodes(pieces, l1) == requested_episodes(pieces, l2),
    decreases pieces.len(),
{
    if pieces.len() > 0 {
        let p = pieces.drop_last();
        let last = pieces.last();
        lemma_requested_latest(p, l1, l2);
        lemma_piece_latest(last, l1, l2);
        assert(requested_episodes(pieces, l1) == requested_episodes(p, l1) + piece_requested(last, l1));
        assert(requested_episodes(pieces, l2) == requested_episodes(p, l2) + piece_requested(last, l2));
        lemma_concat_contains(requested_episodes(p, l1), piece_requested(last, l1));
        lemma_concat_contains(requested_episodes(p, l2), piece_requested(last, l2));
        assert forall|x: i32| requested_episodes(pieces, l1).contains(x) implies requested_episodes(
            pieces,
            l2,
        ).contains(x) by {
            if requested_episodes(p, l1).contains(x) {
                assert(requested_episodes(p, l2).contains(x));
            } else {
                assert(piece_requested(last, l1).contains(x));
                assert(piece_requested(last, l2).contains(x));
            }
        }
        if forall|i: int| 0 <= i < pieces.len() ==> !#[trigger] piece_open_ended(pieces[i]) {
            assert forall|i: int| 0 <= i < p.len() implies !#[trigger] piece_open_ended(p[i]) by {
                assert(p[i] == pieces[i]);
            }
            assert(!piece_open_ended(pieces[pieces.len() - 1]));
        }
    }
}

/// A later latest episode only adds episodes to the result of a range, and adds
/// none when no part of the range runs up to the latest episode.
pub proof fn lemma_latest_monotone(range: Seq<char>, l1: i32, l2: i32, r1: Seq<i32>, r2: Seq<i32>)
    requires
        l1 <= l2,
        sorted_set_of(r1, requested_episodes(split_seq(range, ','), l1)),
        sorted_set_of(r2, requested_episodes(split_seq(range, ','), l2)),
    ensures
        forall|x: i32| r1.contains(x) ==> r2.contains(x),
        !range_open_ended(range) ==> r1 == r2,
{
    let ps = split_seq(range, ',');
    lemma_requested_latest(ps, l1, l2);
    if !range_open_ended(range) {
        assert forall|i: int| 0 <= i < ps.len() implies !#[trigger] piece_open_ended(ps[i]) by {}
        lemma_sorted_set_unique(r1, r2);
    }
}

/// The episode numbers to fetch: only `latest` when the latest episode alone was
/// asked for, else those of the range.
pub fn episodes_to_fetch(range: Vec<i32>, latest: i32, last_episode: bool) -> (r: Vec<i32>)
    ensures
        r@ == (if last_episode {
            seq![latest]
        } else {
            range@
        }),
{
    if last_episode {
        let mut v: Vec<i32> = Vec::new();
        v.push(latest);
        assert(v@ =~= seq![latest]);
        v
    } else {
        range
    }
}

/// How a selection of episodes went.
#[derive(Debug, Clone, Copy, PartialEq, Eq)]
pub enum SelectionOutcome {
    /// None of the asked episodes exists; the command stops.
    NoneFound,
    /// Some of the asked episodes do not exist; they are reported.
    SomeMissing,
    /// Every asked episode exists.
    AllFound,
}

/// How a selection went, from the positions of the chosen episodes and the numbers
/// that no episode has.
pub fn selection_outcome(chosen: &Vec<usize>, missing: &Vec<i32>) -> (r: SelectionOutcome)
    ensures
        chosen@.len() == 0 ==> r is NoneFound,
        chosen@.len() > 0 && missing@.len() > 0 ==> r is SomeMissing,
        chosen@.len() > 0 && missing@.len() == 0 ==> r is AllFound,
{
    if chosen.len() == 0 {
        SelectionOutcome::NoneFound
    } else if missing.len() > 0 {
        SelectionOutcome::SomeMissing
    } else {
        SelectionOutcome::AllFound
    }
}

/// The episode numbers of `eps`.
pub open spec fn ep_nums(eps: Seq<AnimeEpisode>) -> Seq<i32> {
    eps.map_values(|e: AnimeEpisode| e.ep_num)
}

/// The greatest episode number in `nums`, or 1 when there is none.
pub open spec fn latest_spec(nums: Seq<i32>) -> i32
    decreases nums.len(),
{
    if nums.len() == 0 {
        1
    } else if nums.len() == 1 {
        nums[0]
    } else {
        let m = latest_spec(nums.drop_last());
        if nums.last() > m {
            nums.last()
        } else {
            m
        }
    }
}

/// The latest of the numbers `nums` is their maximum: one of them, and no number
/// of `nums` is greater; 1 when there are none.
pub proof fn lemma_latest_is_max(nums: Seq<i32>)
    ensures
        nums.len() == 0 ==> latest_spec(nums) == 1,
        nums.len() > 0 ==> nums.contains(latest_spec(nums)),
        forall|i: int| 0 <= i < nums.len() ==> nums[i] <= latest_spec(nums),
    decreases nums.len(),
{
    if nums.len() == 1 {
        assert(nums[0] == latest_spec(nums));
    } else if nums.len() > 1 {
        let p = nums.drop_last();
        lemma_latest_is_max(p);
        let m = latest_spec(p);
        let k = choose|k: int| 0 <= k < p.len() && p[k] == m;
        if nums.last() > m {
            assert(nums[nums.len() - 1] == latest_spec(nums));
        } else {
            assert(nums[k] == latest_spec(nums));
        }
        assert forall|i: int| 0 <= i < nums.len() implies nums[i] <= latest_spec(nums) by {
            if i < p.len() {
                assert(p[i] == nums[i]);
            }
        }
    }
}

/// The number of the latest episode in `episodes`, 1 when there are none.
pub fn latest_episode(episodes: &Vec<AnimeEpisode>) -> (r: i32)
    ensures
        r == latest_spec(ep_nums(episodes@)),
        episodes@.len() == 0 ==> r == 1,
        episodes@.len() > 0 ==> exists|i: int| 0 <= i < episodes@.len() && #[trigger] episodes@[i].ep_num == r,
        forall|i: int| 0 <= i < episodes@.len() ==> #[trigger] episodes@[i].ep_num <= r,
{
    proof {
        lemma_latest_is_max(ep_nums(episodes@));
        let nums = ep_nums(episodes@);
        assert(forall|i: int| 0 <= i < episodes@.len() ==> nums[i] == #[trigger] episodes@[i].ep_num);
        if episodes@.len() > 0 {
            let k = choose|k: int| 0 <= k < nums.len() && nums[k] == latest_spec(nums);
            assert(episodes@[k].ep_num == latest_spec(nums));
        }
    }
    let ghost nums = ep_nums(episodes@);
    if episodes.len() == 0 {
        return 1;
    }
    let mut m = episodes[0].ep_num;
    let mut i: usize = 1;
    assert(nums.take(1) =~= seq![nums[0]]);
    while i < episodes.len()
        invariant
            1 <= i <= episodes.len(),
            nums == ep_nums(episodes@),
            m == latest_spec(nums.take(i as int)),
        decreases episodes.len() - i,
    {
        let x = episodes[i].ep_num;
        assert(nums.take(i + 1).drop_last() =~= nums.take(i as int));
        assert(nums.take(i + 1).last() == x);
        if x > m {
            m = x;
        }
        i = i + 1;
    }
    assert(nums.take(episodes.len() as int) =~= nums);
    m
}

/// The values of `range` that no number of `nums` equals, in order.
pub open spec fn missing_spec(range: Seq<i32>, nums: Seq<i32>) -> Seq<i32>
    decreases range.len(),
{
    if range.len() == 0 {
        Seq::empty()
    } else {
        let m = missing_spec(range.drop_last(), nums);
        if nums.contains(range.last()) {
            m
        } else {
            m.push(range.last())
        }
    }
}

/// The positions of the episodes that `range` asks for, ascending, and the
/// numbers in `range` that no episode has, in order.
pub fn select_episodes(episodes: &Vec<AnimeEpisode>, range: &Vec<i32>) -> (r: (Vec<usize>, Vec<i32>))
    ensures
        forall|a: int, b: int| 0 <= a < b < r.0@.len() ==> r.0@[a] < r.0@[b],
        forall|k: int| 0 <= k < r.0@.len() ==> r.0@[k] < episodes@.len(),
        forall|i: int|
            0 <= i < episodes@.len() ==> (r.0@.contains(i as usize) <==> range@.contains(
                episodes@[i].ep_num,
            )),
        r.1@ == missing_spec(range@, ep_nums(episodes@)),
{
    let ghost nums = ep_nums(episodes@);
    let mut chosen: Vec<usize> = Vec::new();
    let mut i: usize = 0;
    while i < episodes.len()
        invariant
            i <= episodes.len(),
            forall|a: int, b: int| 0 <= a < b < chosen@.len() ==> chosen@[a] < chosen@[b],
            forall|k: int| 0 <= k < chosen@.len() ==> chosen@[k] < i,
            forall|j: int|
                0 <= j < i ==> (chosen@.contains(j as usize) <==> range@.contains(
                    episodes@[j].ep_num,
                )),
        decreases episodes.len() - i,
    {
        let ghost before = chosen@;
        if contains_i32(range, episodes[i].ep_num) {
            chosen.push(i);
            assert(chosen@ == before.push(i));
            assert(chosen@[chosen@.len() - 1] == i);
        }
        assert forall|j: int| 0 <= j < i + 1 implies (chosen@.contains(j as usize)
            <==> range@.contains(episodes@[j].ep_num)) by {
            if j < i {
                if before.contains(j as usize) {
                    let k = choose|k: int| 0 <= k < before.len() && before[k] == j as usize;
                    assert(chosen@[k] == j as usize);
                }
                if chosen@.contains(j as usize) {
                    let k = choose|k: int| 0 <= k < chosen@.len() && chosen@[k] == j as usize;
                    if k < before.len() {
                        assert(before[k] == j as usize);
                    }
                }
            } else {
                if chosen@.contains(j as usize) {
                    let k = choose|k: int| 0 <= k < chosen@.len() && chosen@[k] == j as usize;
                    if k < before.len() {
                        assert(before[k] < i);
                    }
                }
            }
        }
        i = i + 1;
    }
    let mut missing: Vec<i32> = Vec::new();
    let mut nums_v: Vec<i32> = Vec::new();
    let mut t: usize = 0;
    while t < episodes.len()
        invariant
            t <= episodes.len(),
            nums == ep_nums(episodes@),
            nums_v@ == nums.take(t as int),
        decreases episodes.len() - t,
    {
        nums_v.push(episodes[t].ep_num);
        assert(nums.take(t + 1) =~= nums.take(t as int).push(episodes@[t as int].ep_num));
        t = t + 1;
    }
    assert(nums.take(episodes.len() as int) =~= nums);
    let mut j: usize = 0;
    while j < range.len()
        invariant
            j <= range.len(),
            nums_v@ == nums,
            missing@ == missing_spec(range@.take(j as int), nums),
        decreases range.len() - j,
    {
        let x = range[j];
        assert(range@.take(j + 1).drop_last() =~= range@.take(j as int));
        assert(range@.take(j + 1).last() == x);
        if !contains_i32(&nums_v, x) {
            missing.push(x);
        }
        j = j + 1;
    }
    assert(range@.take(range.len() as int) =~= range@);
    (chosen, missing)
}

/// The position of the first stream titled `HLS`.
pub fn find_hls_stream(streams: &Vec<StreamLink>) -> (r: Option<usize>)
    ensures
        r matches Some(k) ==> k < streams@.len() && streams@[k as int].title@ == "HLS"@ && forall|
            j: int,
        | 0 <= j < k ==> streams@[j].title@ != "HLS"@,
        r is None ==> forall|j: int| 0 <= j < streams@.len() ==> streams@[j].title@ != "HLS"@,
{
    let mut i: usize = 0;
    while i < streams.len()
        invariant
            i <= streams.len(),
            forall|j: int| 0 <= j < i ==> streams@[j].title@ != "HLS"@,
        decreases streams.len() - i,
    {
        if str_eq(streams[i].title.as_str(), "HLS") {
            return Some(i);
        }
        i = i + 1;
    }
    None
}

/// The position in a list of `len` results of the entry that the 1-based
/// `choice` names, if it names one.
pub fn choice_index(len: usize, choice: i32) -> (r: Option<usize>)
    ensures
        r is Some <==> 1 <= choice <= len,
        r matches Some(k) ==> k == choice - 1,
{
    if choice >= 1 && (choice as usize) <= len {
        Some((choice - 1) as usize)
    } else {
        None
    }
}

/// The table rows for search results: the 1-based position, the title and the
/// provider of each.
pub fn search_result_rows(results: &Vec<SearchResult>) -> (rows: Vec<Vec<String>>)
    requires
        results@.len() < usize::MAX,
    ensures
        rows@.len() == results@.len(),
        forall|i: int|
            0 <= i < rows@.len() ==> #[trigger] rows@[i].deep_view() == seq![
                int_to_decimal(i + 1),
                results@[i].title@,
                results@[i].provider@,
            ],
{
    let mut rows: Vec<Vec<String>> = Vec::new();
    let mut i: usize = 0;
    while i < results.len()
        invariant
            i <= results.len(),
            results@.len() < usize::MAX,
            rows@.len() == i,
            forall|k: int|
                0 <= k < i ==> #[trigger] rows@[k].deep_view() == seq![
                    int_to_decimal(k + 1),
                    results@[k].title@,
                    results@[k].provider@,
                ],
        decreases results.len() - i,
    {
        let mut row: Vec<String> = Vec::new();
        row.push(usize_to_string(i + 1));
        row.push(results[i].title.clone());
        row.push(results[i].provider.clone());
        assert(row.deep_view() =~= seq![
            int_to_decimal(i + 1),
            results@[i as int].title@,
            results@[i as int].provider@,
        ]);
        rows.push(row);
        i = i + 1;
    }
    rows
}


/// Where an episode numbered `k` goes in `s`: after every leading episode whose
/// number is at most `k`.
pub open spec fn insert_pos(s: Seq<AnimeEpisodeView>, k: i32) -> int
    decreases s.len(),
{
    if s.len() == 0 {
        0
    } else if s[0].ep_num > k {
        0
    } else {
        1 + insert_pos(s.drop_first(), k)
    }
}

/// `s` sorted by episode number, episodes with equal numbers kept in their order
/// (the result of a stable sort).
pub open spec fn sort_by_ep_num(s: Seq<AnimeEpisodeView>) -> Seq<AnimeEpisodeView>
    decreases s.len(),
{
    if s.len() == 0 {
        s
    } else {
        let t = sort_by_ep_num(s.drop_last());
        t.insert(insert_pos(t, s.last().ep_num), s.last())
    }
}

/// Episode numbers do not decrease along `s`.
pub open spec fn ep_sorted(s: Seq<AnimeEpisodeView>) -> bool {
    forall|i: int, j: int| 0 <= i < j < s.len() ==> s[i].ep_num <= s[j].ep_num
}

proof fn lemma_insert_pos(s: Seq<AnimeEpisodeView>, k: i32, p: int)
    requires
        0 <= p <= s.len(),
        forall|j: int| 0 <= j < p ==> s[j].ep_num <= k,
        p < s.len() ==> s[p].ep_num > k,
    ensures
        insert_pos(s, k) == p,
    decreases s.len(),
{
    if s.len() > 0 && p > 0 {
        let t = s.drop_first();
        assert forall|j: int| 0 <= j < p - 1 implies t[j].ep_num <= k by {
            assert(t[j] == s[j + 1]);
        }
        if p - 1 < t.len() {
            assert(t[p - 1] == s[p]);
        }
        lemma_insert_pos(t, k, p - 1);
    }
}

proof fn lemma_insert_pos_bounds(s: Seq<AnimeEpisodeView>, k: i32)
    requires
        ep_sorted(s),
    ensures
        0 <= insert_pos(s, k) <= s.len(),
        forall|j: int| 0 <= j < insert_pos(s, k) ==> s[j].ep_num <= k,
        forall|j: int| insert_pos(s, k) <= j < s.len() ==> s[j].ep_num > k,
    decreases s.len(),
{
    if s.len() > 0 {
        let t = s.drop_first();
        assert(ep_sorted(t)) by {
            assert forall|i: int, j: int| 0 <= i < j < t.len() implies t[i].ep_num <= t[j].ep_num by {
                assert(t[i] == s[i + 1] && t[j] == s[j + 1]);
            }
        }
        lemma_insert_pos_bounds(t, k);
        if s[0].ep_num > k {
            assert forall|j: int| 0 <= j < s.len() implies s[j].ep_num > k by {
                if j > 0 {
                    assert(s[0].ep_num <= s[j].ep_num);
                }
            }
        } else {
            assert forall|j: int| 0 <= j < insert_pos(s, k) implies s[j].ep_num <= k by {
                if j > 0 {
                    assert(s[j] == t[j - 1]);
                }
            }
            assert forall|j: int| insert_pos(s, k) <= j < s.len() implies s[j].ep_num > k by {
                assert(s[j] == t[j - 1]);
            }
        }
    }
}

/// The stable sort by episode number leaves the episodes in episode order.
pub proof fn lemma_sort_by_ep_num_sorted(s: Seq<AnimeEpisodeView>)
    ensures
        ep_sorted(sort_by_ep_num(s)),
        sort_by_ep_num(s).len() == s.len(),
    decreases s.len(),
{
    if s.len() > 0 {
        let t = sort_by_ep_num(s.drop_last());
        lemma_sort_by_ep_num_sorted(s.drop_last());
        let x = s.last();
        lemma_insert_pos_bounds(t, x.ep_num);
        let p = insert_pos(t, x.ep_num);
        let r = t.insert(p, x);
        assert forall|i: int, j: int| 0 <= i < j < r.len() implies r[i].ep_num <= r[j].ep_num by {
            if j < p {
                assert(r[i] == t[i] && r[j] == t[j]);
            } else if j == p {
                assert(r[i] == t[i]);
            } else if i < p {
                assert(r[i] == t[i] && r[j] == t[j - 1]);
            } else if i == p {
                assert(r[j] == t[j - 1]);
            } else {
                assert(r[i] == t[i - 1] && r[j] == t[j - 1]);
            }
        }
    }
}

/// `v` sorted by episode number; episodes with equal numbers keep their order.
pub fn sort_episodes(v: Vec<AnimeEpisode>) -> (r: Vec<AnimeEpisode>)
    ensures
        views(r@) == sort_by_ep_num(views(v@)),
        ep_sorted(views(r@)),
{
    let ghost orig = views(v@);
    let mut rest = v;
    let mut out: Vec<AnimeEpisode> = Vec::new();
    let n = rest.len();
    let mut i: usize = 0;
    assert(orig.take(0) =~= Seq::<AnimeEpisodeView>::empty());
    assert(views(rest@) =~= orig.skip(0));
    while i < n
        invariant
            n == orig.len(),
            i <= n,
            rest@.len() == n - i,
            views(rest@) == orig.skip(i as int),
            views(out@) == sort_by_ep_num(orig.take(i as int)),
        decreases n - i,
    {
        proof {
            lemma_sort_by_ep_num_sorted(orig.take(i as int));
        }
        let ghost rv = rest@;
        let x = rest.remove(0);
        let ghost xv = x@;
        assert(rest@ == rv.remove(0));
        assert(views(rv)[0] == xv);
        assert(orig.skip(i as int)[0] == orig[i as int]);
        assert(xv == orig[i as int]);
        assert forall|j: int| 0 <= j < rest@.len() implies views(rest@)[j] == orig.skip(i + 1)[j] by {
            assert(rest@[j] == rv[j + 1]);
            assert(views(rv)[j + 1] == orig.skip(i as int)[j + 1]);
        }
        assert(views(rest@) =~= orig.skip(i + 1));
        let k = x.ep_num;
        let mut p: usize = 0;
        while p < out.len() && out[p].ep_num <= k
            invariant
                p <= out.len(),
                forall|j: int| 0 <= j < p ==> out@[j].ep_num <= k,
            decreases out.len() - p,
        {
            p = p + 1;
        }
        let ghost before = views(out@);
        assert forall|j: int| 0 <= j < p implies before[j].ep_num <= k by {}
        proof {
            lemma_insert_pos(before, k, p as int);
        }
        out.insert(p, x);
        assert(orig.take(i + 1).drop_last() =~= orig.take(i as int));
        assert(orig.take(i + 1).last() == xv);
        assert(views(out@) =~= before.insert(p as int, xv));
        i = i + 1;
    }
    assert(orig.take(n as int) =~= orig);
    proof {
        lemma_sort_by_ep_num_sorted(orig);
    }
    out
}

} // verus!
