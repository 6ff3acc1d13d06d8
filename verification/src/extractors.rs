//! Unpacking embed streams into direct ones: which extractor each stream needs.

use vstd::prelude::*;
use crate::bridge::{parse_url_host, url_host};
use crate::text::str_eq;
use crate::types::{views, StreamLink, StreamLinkView};

verus! {

/// A site whose embeds the tool can unpack.
#[derive(Debug, Clone, Copy, PartialEq, Eq)]
pub enum Extractor {
    Goload,
}

/// What one round of unpacking does with a stream.
#[derive(Debug, Clone, Copy, PartialEq, Eq)]
pub enum UnpackStep {
    /// A direct stream stays as it is.
    Keep,
    /// An embed on a known site goes to its extractor.
    Extract(Extractor),
    /// An embed whose URL has no host, or one on an unknown site, is dropped.
    Drop,
}

/// What one round of unpacking does with a stream of these directness and URL.
pub open spec fn unpack_step_spec(is_direct: bool, url: Seq<char>) -> UnpackStep {
    if is_direct {
        UnpackStep::Keep
    } else {
        match url_host(url) {
            Some(h) => if h == "goload.pro"@ {
                UnpackStep::Extract(Extractor::Goload)
            } else {
                UnpackStep::Drop
            },
            None => UnpackStep::Drop,
        }
    }
}

/// What one round of unpacking does with `stream`.
pub fn unpack_step(stream: &StreamLink) -> (r: UnpackStep)
    ensures
        r == unpack_step_spec(stream.is_direct, stream.url@),
{
    if stream.is_direct {
        return UnpackStep::Keep;
    }
    match parse_url_host(stream.url.as_str()) {
        Some(h) => {
            if str_eq(h.as_str(), "goload.pro") {
                UnpackStep::Extract(Extractor::Goload)
            } else {
                UnpackStep::Drop
            }
        },
        None => UnpackStep::Drop,
    }
}

/// What one round of unpacking does with each of `streams`; only direct streams
/// are kept.
pub fn plan_unpack(streams: &Vec<StreamLink>) -> (r: Vec<UnpackStep>)
    ensures
        r@.len() == streams@.len(),
        forall|i: int|
            0 <= i < r@.len() ==> #[trigger] r@[i] == unpack_step_spec(
                streams@[i].is_direct,
                streams@[i].url@,
            ),
        forall|i: int| 0 <= i < r@.len() && r@[i] == UnpackStep::Keep ==> streams@[i].is_direct,
{
    let mut r: Vec<UnpackStep> = Vec::new();
    let mut i: usize = 0;
    while i < streams.len()
        invariant
            i <= streams.len(),
            r@.len() == i,
            forall|k: int|
                0 <= k < i ==> #[trigger] r@[k] == unpack_step_spec(
                    streams@[k].is_direct,
                    streams@[k].url@,
                ),
        decreases streams.len() - i,
    {
        r.push(unpack_step(&streams[i]));
        i = i + 1;
    }
    r
}

/// Every stream is direct, so that unpacking is done.
pub fn all_direct(streams: &Vec<StreamLink>) -> (b: bool)
    ensures
        b == forall|i: int| 0 <= i < streams@.len() ==> #[trigger] streams@[i].is_direct,
{
    let mut i: usize = 0;
    while i < streams.len()
        invariant
            i <= streams.len(),
            forall|k: int| 0 <= k < i ==> #[trigger] streams@[k].is_direct,
        decreases streams.len() - i,
    {
        if !streams[i].is_direct {
            return false;
        }
        i = i + 1;
    }
    true
}


/// What one round of unpacking makes of one stream, given what its extractor
/// returned for it: a direct stream stays, an embed on a known site becomes the
/// extractor's streams, any other embed is dropped.
pub open spec fn step_output(s: StreamLinkView, extracted: Seq<StreamLinkView>) -> Seq<StreamLinkView> {
    match unpack_step_spec(s.is_direct, s.url) {
        UnpackStep::Keep => seq![s],
        UnpackStep::Extract(_) => extracted,
        UnpackStep::Drop => Seq::empty(),
    }
}

/// What one round of unpacking makes of `streams`, where `extracted[i]` is what the
/// extractor returned for stream `i`: the outputs of the streams, in order.
pub open spec fn round_spec(streams: Seq<StreamLinkView>, extracted: Seq<Seq<StreamLinkView>>) -> Seq<
    StreamLinkView,
>
    decreases streams.len(),
{
    if streams.len() == 0 {
        Seq::empty()
    } else {
        round_spec(streams.drop_last(), extracted) + step_output(
            streams.last(),
            extracted[streams.len() - 1],
        )
    }
}

/// The models of the extractor outputs.
pub open spec fn extracted_views(extracted: Seq<Vec<StreamLink>>) -> Seq<Seq<StreamLinkView>> {
    extracted.map_values(|v: Vec<StreamLink>| views(v@))
}

/// Every stream of `streams` is direct.
pub open spec fn all_direct_spec(streams: Seq<StreamLinkView>) -> bool {
    forall|i: int| 0 <= i < streams.len() ==> #[trigger] streams[i].is_direct
}

/// One round of unpacking: the streams that `streams` becomes, where `extracted[i]`
/// is what the extractor returned for stream `i` (read only where `plan_unpack`
/// asks for an extractor). Unpacking is done when the result is `all_direct`.
pub fn unpack_round(streams: &Vec<StreamLink>, extracted: &Vec<Vec<StreamLink>>) -> (r: Vec<StreamLink>)
    requires
        extracted@.len() == streams@.len(),
    ensures
        views(r@) == round_spec(views(streams@), extracted_views(extracted@)),
{
    let ghost sv = views(streams@);
    let ghost ev = extracted_views(extracted@);
    let mut r: Vec<StreamLink> = Vec::new();
    let mut i: usize = 0;
    assert(sv.take(0) =~= Seq::<StreamLinkView>::empty());
    assert(views(r@) =~= Seq::<StreamLinkView>::empty());
    while i < streams.len()
        invariant
            i <= streams.len(),
            extracted@.len() == streams@.len(),
            sv == views(streams@),
            ev == extracted_views(extracted@),
            views(r@) == round_spec(sv.take(i as int), ev),
        decreases streams.len() - i,
    {
        assert(sv.take(i + 1).drop_last() =~= sv.take(i as int));
        assert(sv.take(i + 1).last() == streams@[i as int]@);
        let ghost base = views(r@);
        let step = unpack_step(&streams[i]);
        match step {
            UnpackStep::Keep => {
                r.push(streams[i].copy());
                assert(views(r@) =~= base + seq![streams@[i as int]@]);
            },
            UnpackStep::Extract(_) => {
                let ex = &extracted[i];
                assert(ev[i as int] == views(ex@));
                let mut j: usize = 0;
                assert(views(r@) =~= base + views(ex@).take(0));
                while j < ex.len()
                    invariant
                        j <= ex.len(),
                        views(r@) == base + views(ex@).take(j as int),
                    decreases ex.len() - j,
                {
                    let ghost before = r@;
                    r.push(ex[j].copy());
                    assert(r@ == before.push(r@[r@.len() - 1]));
                    assert(views(r@) =~= views(before).push(ex@[j as int]@));
                    assert(views(ex@).take(j + 1) =~= views(ex@).take(j as int).push(ex@[j as int]@));
                    assert(views(r@) =~= base + views(ex@).take(j + 1));
                    j = j + 1;
                }
                assert(views(ex@).take(ex.len() as int) =~= views(ex@));
            },
            UnpackStep::Drop => {
                assert(views(r@) =~= base + Seq::<StreamLinkView>::empty());
            },
        }
        i = i + 1;
    }
    assert(sv.take(streams.len() as int) =~= sv);
    r
}

/// Unpacking streams that are all direct changes nothing: the round gives back
/// the same streams in the same order, whatever the extractors would return, and
/// they are all direct, so unpacking stops there. Since unpacking returns only
/// all-direct streams, unpacking its result again gives that result back.
pub proof fn lemma_unpack_direct_unchanged(
    streams: Seq<StreamLinkView>,
    extracted: Seq<Seq<StreamLinkView>>,
)
    requires
        all_direct_spec(streams),
    ensures
        round_spec(streams, extracted) == streams,
        all_direct_spec(round_spec(streams, extracted)),
    decreases streams.len(),
{
    if streams.len() > 0 {
        let p = streams.drop_last();
        assert(all_direct_spec(p)) by {
            assert forall|i: int| 0 <= i < p.len() implies #[trigger] p[i].is_direct by {
                assert(p[i] == streams[i]);
            }
        }
        lemma_unpack_direct_unchanged(p, extracted);
        assert(streams.last().is_direct);
        assert(p + seq![streams.last()] =~= streams);
    }
}

} // verus!
