//! Proposal validation: turning a metadata blob into a collection proposal
//! and a list of graphic proposals, naming the first mandatory field that
//! is missing or malformed.

use vstd::prelude::*;

use crate::errors::ParseFault;
use crate::json::{get_field, get_str_field, json_doc_of, json_get, parse_json_text, str_field,
    Json};
use crate::records::{opt_text, CollectionProposal, CollectionProposalV, GraphicProposal,
    GraphicProposalV};

verus! {

/// What validating a decoded document as a collection proposal yields.
pub open spec fn spec_parse_collection(doc: Option<Json>) -> Result<CollectionProposalV, ParseFault> {
    match doc {
        None => Err(ParseFault::InvalidDocument),
        Some(d) => match json_get(d, "collection"@) {
            None => Err(ParseFault::MissingCollection),
            Some(c) => match str_field(c, "title"@) {
                None => Err(ParseFault::MissingCollectionTitle),
                Some(t) => Ok(CollectionProposalV {
                    title: t,
                    description: str_field(c, "description"@),
                    artist: str_field(c, "artist"@),
                    external_link: str_field(c, "external_link"@),
                }),
            },
        },
    }
}

/// What validating one entry of the `graphics` sequence yields.
pub open spec fn spec_parse_graphic(j: Json) -> Result<GraphicProposalV, ParseFault> {
    match str_field(j, "asset"@) {
        None => Err(ParseFault::MissingGraphicAsset),
        Some(a) => match str_field(j, "title"@) {
            None => Err(ParseFault::MissingGraphicTitle),
            Some(t) => Ok(GraphicProposalV {
                asset: a,
                title: t,
                description: str_field(j, "description"@),
            }),
        },
    }
}

/// What validating the `graphics` sequence yields: the first faulty entry's
/// fault, or every entry's proposal in order.
pub open spec fn spec_parse_graphic_seq(items: Seq<Json>) -> Result<Seq<GraphicProposalV>, ParseFault>
    decreases items.len(),
{
    if items.len() == 0 {
        Ok(Seq::empty())
    } else {
        match spec_parse_graphic(items[0]) {
            Err(f) => Err(f),
            Ok(p) => match spec_parse_graphic_seq(items.drop_first()) {
                Err(f) => Err(f),
                Ok(rest) => Ok(seq![p] + rest),
            },
        }
    }
}

/// What validating a decoded document as a graphics list yields.
pub open spec fn spec_parse_graphics(doc: Option<Json>) -> Result<Seq<GraphicProposalV>, ParseFault> {
    match doc {
        None => Err(ParseFault::InvalidDocument),
        Some(d) => match json_get(d, "graphics"@) {
            None => Err(ParseFault::MissingGraphics),
            Some(g) => match g {
                Json::Arr(items) => spec_parse_graphic_seq(items@),
                _ => Err(ParseFault::GraphicsNotArray),
            },
        },
    }
}

/// If the first `i` entries validate, the whole sequence's outcome is the
/// outcome of the rest, prefixed by the first `i` proposals.
proof fn lemma_parse_seq_split(items: Seq<Json>, i: int)
    requires
        0 <= i <= items.len(),
        forall|k: int| 0 <= k < i ==> spec_parse_graphic(#[trigger] items[k]) is Ok,
    ensures
        spec_parse_graphic_seq(items) == match spec_parse_graphic_seq(items.skip(i)) {
            Err(f) => Err::<Seq<GraphicProposalV>, ParseFault>(f),
            Ok(rest) => Ok(
                Seq::new(i as nat, |k: int| spec_parse_graphic(items[k])->Ok_0) + rest,
            ),
        },
    decreases i,
{
    if i == 0 {
        assert(items.skip(0) =~= items);
        match spec_parse_graphic_seq(items) {
            Err(f) => {},
            Ok(rest) => {
                assert(Seq::new(0, |k: int| spec_parse_graphic(items[k])->Ok_0) + rest =~= rest);
            },
        }
    } else {
        lemma_parse_seq_split(items, i - 1);
        let tail = items.skip(i - 1);
        assert(tail[0] == items[i - 1]);
        assert(tail.drop_first() =~= items.skip(i));
        assert(spec_parse_graphic(items[i - 1]) is Ok);
        let prefix_prev = Seq::new((i - 1) as nat, |k: int| spec_parse_graphic(items[k])->Ok_0);
        let prefix = Seq::new(i as nat, |k: int| spec_parse_graphic(items[k])->Ok_0);
        match spec_parse_graphic_seq(items.skip(i)) {
            Err(f) => {
                assert(spec_parse_graphic_seq(tail) == Err::<Seq<GraphicProposalV>, ParseFault>(f));
            },
            Ok(rest) => {
                assert(spec_parse_graphic_seq(tail)
                    == Ok::<Seq<GraphicProposalV>, ParseFault>(
                        seq![spec_parse_graphic(items[i - 1])->Ok_0] + rest));
                assert(prefix_prev + (seq![spec_parse_graphic(items[i - 1])->Ok_0] + rest)
                    =~= prefix + rest);
            },
        }
    }
}

/// Validates one entry of the `graphics` sequence.
fn parse_graphic_item(j: &Json) -> (r: Result<GraphicProposal, ParseFault>)
    ensures
        match r {
            Ok(p) => spec_parse_graphic(*j) == Ok::<GraphicProposalV, ParseFault>(p@),
            Err(f) => spec_parse_graphic(*j) == Err::<GraphicProposalV, ParseFault>(f),
        },
{
    let asset = match get_str_field(j, &String::from_str("asset")) {
        Some(a) => a,
        None => {
            return Err(ParseFault::MissingGraphicAsset);
        },
    };
    let title = match get_str_field(j, &String::from_str("title")) {
        Some(t) => t,
        None => {
            return Err(ParseFault::MissingGraphicTitle);
        },
    };
    let description = get_str_field(j, &String::from_str("description"));
    Ok(GraphicProposal { asset, title, description })
}

/// Validates the metadata blob as a collection proposal. The `title` field
/// is mandatory; `description`, `artist` and `external_link` are optional.
pub fn parse_collection(metadata_blob: &str) -> (r: Result<CollectionProposal, ParseFault>)
    ensures
        match r {
            Ok(p) => spec_parse_collection(json_doc_of(metadata_blob@))
                == Ok::<CollectionProposalV, ParseFault>(p@),
            Err(f) => spec_parse_collection(json_doc_of(metadata_blob@))
                == Err::<CollectionProposalV, ParseFault>(f),
        },
{
    let doc = match parse_json_text(metadata_blob) {
        Some(d) => d,
        None => {
            return Err(ParseFault::InvalidDocument);
        },
    };
    let collection = match get_field(&doc, &String::from_str("collection")) {
        Some(c) => c,
        None => {
            return Err(ParseFault::MissingCollection);
        },
    };
    let title = match get_str_field(collection, &String::from_str("title")) {
        Some(t) => t,
        None => {
            return Err(ParseFault::MissingCollectionTitle);
        },
    };
    let description = get_str_field(collection, &String::from_str("description"));
    let artist = get_str_field(collection, &String::from_str("artist"));
    let external_link = get_str_field(collection, &String::from_str("external_link"));
    Ok(CollectionProposal { title, description, artist, external_link })
}

/// Validates the metadata blob as a list of graphic proposals. Each entry's
/// `asset` and `title` are mandatory; `description` is optional. Entries
/// need not have distinct asset paths: deduplication is the reconciler's
/// concern.
pub fn parse_graphics(metadata_blob: &str) -> (r: Result<Vec<GraphicProposal>, ParseFault>)
    ensures
        match r {
            Ok(ps) => spec_parse_graphics(json_doc_of(metadata_blob@))
                == Ok::<Seq<GraphicProposalV>, ParseFault>(crate::records::proposals_view(ps@)),
            Err(f) => spec_parse_graphics(json_doc_of(metadata_blob@))
                == Err::<Seq<GraphicProposalV>, ParseFault>(f),
        },
{
    let doc = match parse_json_text(metadata_blob) {
        Some(d) => d,
        None => {
            return Err(ParseFault::InvalidDocument);
        },
    };
    let graphics = match get_field(&doc, &String::from_str("graphics")) {
        Some(g) => g,
        None => {
            return Err(ParseFault::MissingGraphics);
        },
    };
    match graphics {
        Json::Arr(items) => {
            let ghost items_v = items@;
            let n = items.len();
            let mut proposals: Vec<GraphicProposal> = Vec::new();
            let mut i: usize = 0;
            while i < n
                invariant
                    i <= n,
                    n == items_v.len(),
                    items@ == items_v,
                    spec_parse_graphics(json_doc_of(metadata_blob@))
                        == spec_parse_graphic_seq(items_v),
                    proposals@.len() == i,
                    forall|k: int|
                        0 <= k < i ==> spec_parse_graphic(#[trigger] items_v[k])
                            == Ok::<GraphicProposalV, ParseFault>(proposals@[k]@),
                decreases n - i,
            {
                match parse_graphic_item(&items[i]) {
                    Ok(p) => {
                        proposals.push(p);
                    },
                    Err(f) => {
                        proof {
                            lemma_parse_seq_split(items_v, i as int);
                            assert(items_v.skip(i as int)[0] == items_v[i as int]);
                        }
                        return Err(f);
                    },
                }
                i = i + 1;
            }
            proof {
                lemma_parse_seq_split(items_v, n as int);
                assert(items_v.skip(n as int) =~= Seq::<Json>::empty());
                let prefix = Seq::new(n as nat, |k: int| spec_parse_graphic(items_v[k])->Ok_0);
                assert(prefix + Seq::<GraphicProposalV>::empty() =~= prefix);
                assert(crate::records::proposals_view(proposals@) =~= prefix);
            }
            Ok(proposals)
        },
        _ => Err(ParseFault::GraphicsNotArray),
    }
}

} // verus!
