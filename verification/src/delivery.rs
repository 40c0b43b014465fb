//! Sending requests in turn, for as long as the server takes them.

use crate::command::{CommandView, Request};
use vstd::prelude::*;

verus! {

/// What to do next with a [`Delivery`].
pub enum Next {
    /// Send this request and wait for the reply.
    Send(Request),
    /// Every request was sent and taken.
    Delivered,
    /// A request failed. What was still waiting is not sent.
    Abandoned,
}

/// What a [`Next`] stands for.
pub enum NextView {
    Send(Seq<CommandView>),
    Delivered,
    Abandoned,
}

impl View for Next {
    type V = NextView;

    open spec fn view(&self) -> NextView {
        match self {
            Next::Send(request) => NextView::Send(request@),
            Next::Delivered => NextView::Delivered,
            Next::Abandoned => NextView::Abandoned,
        }
    }
}

/// A row of requests on its way to the server.
pub struct Delivery {
    waiting: Vec<Request>,
    failed: bool,
}

/// What a [`Delivery`] stands for.
pub struct DeliveryView {
    /// The requests that were not sent yet.
    pub waiting: Seq<Seq<CommandView>>,
    /// Whether one that was sent has failed.
    pub failed: bool,
}

impl View for Delivery {
    type V = DeliveryView;

    closed spec fn view(&self) -> DeliveryView {
        DeliveryView {
            waiting: crate::command::requests_view(self.waiting@),
            failed: self.failed,
        }
    }
}

impl DeliveryView {
    /// The delivery of `requests` before anything was sent.
    pub open spec fn of(requests: Seq<Seq<CommandView>>) -> DeliveryView {
        DeliveryView { waiting: requests, failed: false }
    }

    /// What to do next when the last request was taken or not.
    pub open spec fn next(self, taken: bool) -> NextView {
        if self.failed || !taken {
            NextView::Abandoned
        } else if self.waiting.len() > 0 {
            NextView::Send(self.waiting[0])
        } else {
            NextView::Delivered
        }
    }

    /// The delivery after that.
    pub open spec fn after(self, taken: bool) -> DeliveryView {
        if self.failed || !taken {
            DeliveryView { waiting: self.waiting, failed: true }
        } else if self.waiting.len() > 0 {
            DeliveryView { waiting: self.waiting.skip(1), failed: false }
        } else {
            self
        }
    }

    /// The delivery after each of `replies` was told to it, in order.
    pub open spec fn after_all(self, replies: Seq<bool>) -> DeliveryView
        decreases replies.len(),
    {
        if replies.len() == 0 {
            self
        } else {
            self.after_all(replies.drop_last()).after(replies.last())
        }
    }
}

impl Delivery {
    /// The delivery of `requests`.
    pub fn new(requests: Vec<Request>) -> (delivery: Self)
        ensures
            delivery@ == DeliveryView::of(crate::command::requests_view(requests@)),
    {
        Self { waiting: requests, failed: false }
    }

    /// What to do next. `taken` tells whether the request that was sent last
    /// was taken; it is true where none was sent yet.
    pub fn next(&mut self, taken: bool) -> (next: Next)
        ensures
            next@ == old(self)@.next(taken),
            final(self)@ == old(self)@.after(taken),
            next is Abandoned <==> old(self)@.failed || !taken,
            next is Delivered <==> !old(self)@.failed && taken && old(self)@.waiting.len() == 0,
            next matches Next::Send(request) ==> {
                &&& request@ == old(self)@.waiting[0]
                &&& final(self)@.waiting == old(self)@.waiting.skip(1)
            },
            final(self)@.failed == (old(self)@.failed || !taken),
    {
        if self.failed || !taken {
            self.failed = true;
            Next::Abandoned
        } else if self.waiting.len() > 0 {
            let ghost before = crate::command::requests_view(self.waiting@);
            let request = self.waiting.remove(0);
            assert(crate::command::requests_view(self.waiting@) =~= before.skip(1));
            Next::Send(request)
        } else {
            Next::Delivered
        }
    }
}

/// Requests are sent in order, each once, and only while all before were taken:
/// once `replies` were told, the first of them for the start and one more for
/// each request that was sent, either one of them was a failure and nothing
/// more is sent, or as many requests as there are replies have been sent.
pub proof fn lemma_delivery_in_order(requests: Seq<Seq<CommandView>>, replies: Seq<bool>)
    requires
        replies.len() <= requests.len(),
    ensures
        ({
            let delivery = DeliveryView::of(requests).after_all(replies);
            &&& delivery.failed == replies.contains(false)
            &&& !delivery.failed ==> delivery.waiting == requests.skip(replies.len() as int)
            &&& delivery.failed ==> forall|taken: bool| #[trigger]
                delivery.next(taken) is Abandoned
            &&& delivery.next(false) is Abandoned
            &&& !delivery.failed && replies.len() < requests.len() ==> delivery.next(true)
                == NextView::Send(requests[replies.len() as int])
            &&& !delivery.failed && replies.len() == requests.len() ==> delivery.next(
                true,
            ) is Delivered
        }),
    decreases replies.len(),
{
    if replies.len() > 0 {
        let told = replies.drop_last();
        lemma_delivery_in_order(requests, told);
        if told.contains(false) {
            let i = choose|i: int| 0 <= i < told.len() && told[i] == false;
            assert(replies[i] == false);
        }
        if replies.contains(false) {
            let i = choose|i: int| 0 <= i < replies.len() && replies[i] == false;
            if i < told.len() {
                assert(told[i] == false);
            }
        }
        assert(replies.last() == replies[replies.len() - 1]);
        if !replies.contains(false) {
            assert(requests.skip(told.len() as int).skip(1) =~= requests.skip(
                replies.len() as int,
            ));
        }
    } else {
        assert(requests.skip(0) =~= requests);
    }
}

/// A delivery ends as delivered only where every request was sent and taken.
pub proof fn lemma_delivered_means_all_taken(
    requests: Seq<Seq<CommandView>>,
    replies: Seq<bool>,
    taken: bool,
)
    requires
        replies.len() <= requests.len(),
        DeliveryView::of(requests).after_all(replies).next(taken) is Delivered,
    ensures
        taken,
        replies.len() == requests.len(),
        !replies.contains(false),
{
    lemma_delivery_in_order(requests, replies);
}

} // verus!
