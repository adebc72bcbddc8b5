//! What the greedy probe asks the model about its items, and where the answers stand.

use vstd::prelude::*;
use vstd::string::*;

use crate::neural::{RequestView, ScoreRequest};
use crate::report::request_views;
use crate::text::{copied_texts, texts};

verus! {

/// An item of the probe before its candidates are scored.
#[derive(Debug, PartialEq, Eq)]
pub struct ProbeItem {
    /// The candidates in their context, the generated surface among them if it was added.
    pub request: ScoreRequest,
    /// How many of the candidates the dictionary gives.
    pub count: usize,
    /// The candidates with a supplement behind them, if there is one.
    pub supplemented: Option<Vec<String>>,
}

/// The mathematical value of an item.
pub ghost struct ProbeItemView {
    pub request: RequestView,
    pub count: usize,
    pub supplemented: Option<Seq<Seq<char>>>,
}

impl View for ProbeItem {
    type V = ProbeItemView;

    open spec fn view(&self) -> ProbeItemView {
        ProbeItemView {
            request: self.request@,
            count: self.count,
            supplemented: match self.supplemented {
                Some(candidates) => Some(texts(candidates@)),
                None => None,
            },
        }
    }
}

pub open spec fn probe_views(items: Seq<ProbeItem>) -> Seq<ProbeItemView> {
    Seq::new(items.len(), |i: int| items[i]@)
}

/// The request for the candidates of an item: there must be two to choose from.
pub open spec fn scored_request() -> spec_fn(ProbeItemView) -> Option<RequestView> {
    |item: ProbeItemView|
        if item.count >= 2 {
            Some(item.request)
        } else {
            None
        }
}

/// The request for the same candidates without their context, if there is a context.
pub open spec fn ablated_request() -> spec_fn(ProbeItemView) -> Option<RequestView> {
    |item: ProbeItemView|
        if item.count >= 2 && (item.request.context.len() > 0 || item.request.right_context.len()
            > 0) {
            Some(
                RequestView {
                    context: Seq::empty(),
                    right_context: Seq::empty(),
                    ..item.request
                },
            )
        } else {
            None
        }
}

/// The request for the candidates with the supplement behind them, if there is one.
pub open spec fn supplemented_request() -> spec_fn(ProbeItemView) -> Option<RequestView> {
    |item: ProbeItemView|
        if item.count >= 2 && item.supplemented is Some {
            Some(RequestView { candidates: item.supplemented->0, ..item.request })
        } else {
            None
        }
}

/// The requests of one kind for the first `count` items, in order.
pub open spec fn asked(
    items: Seq<ProbeItemView>,
    wanted: spec_fn(ProbeItemView) -> Option<RequestView>,
    count: int,
) -> Seq<RequestView>
    decreases count,
{
    if count <= 0 {
        Seq::empty()
    } else {
        let before = asked(items, wanted, count - 1);
        match wanted(items[count - 1]) {
            Some(request) => before.push(request),
            None => before,
        }
    }
}

/// Where the answer to the request for an item stands, if there is such a request.
pub open spec fn slot(
    items: Seq<ProbeItemView>,
    wanted: spec_fn(ProbeItemView) -> Option<RequestView>,
    index: int,
) -> Option<usize> {
    if wanted(items[index]) is Some {
        Some(asked(items, wanted, index).len() as usize)
    } else {
        None
    }
}

/// The request with the number in an item's slot is the request for the item.
pub proof fn each_probe_slot_holds_its_request(
    items: Seq<ProbeItemView>,
    wanted: spec_fn(ProbeItemView) -> Option<RequestView>,
    index: int,
    count: int,
)
    requires
        0 <= index < count <= items.len() <= usize::MAX,
        wanted(items[index]) is Some,
    ensures
        slot(items, wanted, index) is Some,
        slot(items, wanted, index)->0 < asked(items, wanted, count).len(),
        asked(items, wanted, count)[slot(items, wanted, index)->0 as int] == wanted(
            items[index],
        )->0,
    decreases count,
{
    no_more_requests_than_items(items, wanted, index);
    if index < count - 1 {
        each_probe_slot_holds_its_request(items, wanted, index, count - 1);
    }
}

proof fn no_more_requests_than_items(
    items: Seq<ProbeItemView>,
    wanted: spec_fn(ProbeItemView) -> Option<RequestView>,
    count: int,
)
    requires
        0 <= count,
    ensures
        asked(items, wanted, count).len() <= count,
    decreases count,
{
    if count > 0 {
        no_more_requests_than_items(items, wanted, count - 1);
    }
}

/// Where the answers for an item stand.
#[derive(Clone, Copy, Debug, PartialEq, Eq, Structural)]
pub struct ProbeSlots {
    pub scored: Option<usize>,
    pub ablated: Option<usize>,
    pub supplemented: Option<usize>,
}

/// What the model is asked, and where the answers for each item stand.
#[derive(Debug, PartialEq, Eq)]
pub struct ProbePlan {
    pub scored: Vec<ScoreRequest>,
    pub ablated: Vec<ScoreRequest>,
    pub supplemented: Vec<ScoreRequest>,
    pub slots: Vec<ProbeSlots>,
}

fn request_with(item: &ScoreRequest, contextual: bool, candidates: &[String]) -> (result:
    ScoreRequest)
    ensures
        result@ == (RequestView {
            context: if contextual {
                item.context@
            } else {
                Seq::empty()
            },
            right_context: if contextual {
                item.right_context@
            } else {
                Seq::empty()
            },
            input_katakana: item.input_katakana@,
            candidates: texts(candidates@),
        }),
{
    ScoreRequest {
        context: if contextual {
            item.context.clone()
        } else {
            String::new()
        },
        right_context: if contextual {
            item.right_context.clone()
        } else {
            String::new()
        },
        input_katakana: item.input_katakana.clone(),
        candidates: copied_texts(candidates),
    }
}

fn add_request(requests: &mut Vec<ScoreRequest>, request: ScoreRequest) -> (result: usize)
    ensures
        result == old(requests)@.len(),
        request_views(final(requests)@) == request_views(old(requests)@).push(request@),
{
    let place: usize = requests.len();
    let ghost view = request@;
    requests.push(request);
    assert(request_views(requests@) =~= request_views(old(requests)@).push(view));
    place
}

/// What the model is asked about the items.
pub fn probe_plan(items: &[ProbeItem]) -> (result: ProbePlan)
    ensures
        request_views(result.scored@) == asked(
            probe_views(items@),
            scored_request(),
            items@.len() as int,
        ),
        request_views(result.ablated@) == asked(
            probe_views(items@),
            ablated_request(),
            items@.len() as int,
        ),
        request_views(result.supplemented@) == asked(
            probe_views(items@),
            supplemented_request(),
            items@.len() as int,
        ),
        result.slots@ == Seq::new(
            items@.len(),
            |i: int|
                ProbeSlots {
                    scored: slot(probe_views(items@), scored_request(), i),
                    ablated: slot(probe_views(items@), ablated_request(), i),
                    supplemented: slot(probe_views(items@), supplemented_request(), i),
                },
        ),
{
    let ghost all = probe_views(items@);
    let mut scored: Vec<ScoreRequest> = Vec::new();
    let mut ablated: Vec<ScoreRequest> = Vec::new();
    let mut supplemented: Vec<ScoreRequest> = Vec::new();
    let mut slots: Vec<ProbeSlots> = Vec::new();
    assert(request_views(scored@) =~= Seq::<RequestView>::empty());
    for index in 0..items.len()
        invariant
            all == probe_views(items@),
            request_views(scored@) == asked(all, scored_request(), index as int),
            request_views(ablated@) == asked(all, ablated_request(), index as int),
            request_views(supplemented@) == asked(all, supplemented_request(), index as int),
            slots@.len() == index,
            forall|i: int|
                0 <= i < index ==> #[trigger] slots@[i] == (ProbeSlots {
                    scored: slot(all, scored_request(), i),
                    ablated: slot(all, ablated_request(), i),
                    supplemented: slot(all, supplemented_request(), i),
                }),
    {
        let item: &ProbeItem = &items[index];
        let request: &ScoreRequest = &item.request;
        assert(all[index as int] == item@);
        assert(request_views(scored@).len() == scored@.len());
        assert(request_views(ablated@).len() == ablated@.len());
        assert(request_views(supplemented@).len() == supplemented@.len());
        let mut found: ProbeSlots = ProbeSlots { scored: None, ablated: None, supplemented: None };
        if item.count >= 2 {
            found.scored = Some(
                add_request(&mut scored, request_with(request, true, request.candidates.as_slice())),
            );
            if !request.context.as_str().is_empty() || !request.right_context.as_str().is_empty() {
                found.ablated = Some(
                    add_request(
                        &mut ablated,
                        request_with(request, false, request.candidates.as_slice()),
                    ),
                );
            }
            if let Some(candidates) = &item.supplemented {
                found.supplemented = Some(
                    add_request(
                        &mut supplemented,
                        request_with(request, true, candidates.as_slice()),
                    ),
                );
            }
        }
        slots.push(found);
    }
    assert(slots@ =~= Seq::new(
        items@.len(),
        |i: int|
            ProbeSlots {
                scored: slot(all, scored_request(), i),
                ablated: slot(all, ablated_request(), i),
                supplemented: slot(all, supplemented_request(), i),
            },
    ));
    ProbePlan { scored, ablated, supplemented, slots }
}

} // verus!
