//! A transport that keeps requests in memory and has a service answer them.
use vstd::prelude::*;

verus! {

/// Whoever answers requests.
pub trait MockService<M> {
    /// Answers a request.
    fn handle(&self, request: M) -> (r: M);
}

/// Requests that wait for an answer.
#[derive(Debug)]
pub struct MockTransport<M> {
    inbox: Vec<M>,
}

impl<M> View for MockTransport<M> {
    type V = Seq<M>;

    closed spec fn view(&self) -> Seq<M> {
        self.inbox@
    }
}

/// Whether a service may answer these requests with these responses, one for each, in order.
pub open spec fn answered<M, S: MockService<M>>(
    service: &S,
    requests: Seq<M>,
    responses: Seq<M>,
) -> bool {
    &&& responses.len() == requests.len()
    &&& forall|i: int|
        0 <= i < requests.len() ==> call_ensures(
            S::handle,
            (service, #[trigger] requests[i]),
            responses[i],
        )
}

impl<M> MockTransport<M> {
    /// A transport without requests.
    pub fn new() -> (r: Self)
        ensures
            r@ == Seq::<M>::empty(),
    {
        MockTransport { inbox: Vec::new() }
    }

    /// Keeps a request.
    pub fn send(&mut self, message: M)
        ensures
            final(self)@ == old(self)@.push(message),
    {
        self.inbox.push(message);
    }

    /// Has a service answer all requests, in the order in which they came.
    pub fn drain<S: MockService<M>>(&mut self, service: &S) -> (r: Vec<M>)
        ensures
            answered(service, old(self)@, r@),
            final(self)@ == Seq::<M>::empty(),
    {
        let ghost all = self.inbox@;
        let mut waiting: Vec<M> = Vec::new();
        std::mem::swap(&mut waiting, &mut self.inbox);
        let mut backwards: Vec<M> = Vec::new();
        let ghost n = waiting@.len();
        loop
            invariant
                n == all.len(),
                waiting@ + backwards@.reverse() == all,
            ensures
                backwards@.reverse() == all,
            decreases waiting@.len(),
        {
            let ghost before = waiting@;
            let ghost taken = backwards@;
            match waiting.pop() {
                Some(request) => {
                    backwards.push(request);
                    assert(waiting@ + backwards@.reverse() =~= before + taken.reverse());
                },
                None => {
                    assert(backwards@.reverse() =~= waiting@ + backwards@.reverse());
                    break;
                },
            }
        }
        let mut responses: Vec<M> = Vec::new();
        assert(all.skip(0) =~= all);
        loop
            invariant
                responses@.len() <= all.len(),
                backwards@.reverse() == all.skip(responses@.len() as int),
                forall|i: int|
                    0 <= i < responses@.len() ==> call_ensures(
                        S::handle,
                        (service, #[trigger] all[i]),
                        responses@[i],
                    ),
            ensures
                answered(service, all, responses@),
            decreases backwards@.len(),
        {
            let ghost left = backwards@;
            let ghost done = responses@.len() as int;
            match backwards.pop() {
                Some(request) => {
                    proof {
                        assert(left.reverse().len() == left.len());
                        assert(left.reverse()[0] == request);
                        assert(all.skip(done)[0] == all[done]);
                        assert(backwards@.reverse() =~= left.reverse().skip(1));
                        assert(all.skip(done).skip(1) =~= all.skip(done + 1));
                    }
                    responses.push(service.handle(request));
                },
                None => {
                    assert(left.reverse().len() == 0);
                    break;
                },
            }
        }
        responses
    }
}

/// Sends requests and has a service answer them all, and says how many answers there are.
pub fn run_roundtrip<M, S: MockService<M>>(
    transport: &mut MockTransport<M>,
    service: &S,
    requests: Vec<M>,
) -> (r: usize)
    ensures
        r == old(transport)@.len() + requests@.len(),
        exists|responses: Seq<M>| #[trigger]
            answered(service, old(transport)@ + requests@, responses),
        final(transport)@ == Seq::<M>::empty(),
{
    let ghost before = transport@;
    let mut more = requests;
    transport.inbox.append(&mut more);
    assert(transport@ =~= before + requests@);
    let responses = transport.drain(service);
    assert(answered(service, before + requests@, responses@));
    responses.len()
}

/// Every request has its own answer, at its own position.
pub proof fn law_each_request_is_answered<M, S: MockService<M>>(
    service: &S,
    requests: Seq<M>,
    responses: Seq<M>,
    i: int,
)
    requires
        answered(service, requests, responses),
        0 <= i < requests.len(),
    ensures
        responses.len() == requests.len(),
        call_ensures(S::handle, (service, requests[i]), responses[i]),
{
}

} // verus!
