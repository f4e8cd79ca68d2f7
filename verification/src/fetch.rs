//! The retry rule of the fetcher: what to do after each attempt.
//!
//! The fetcher itself sends no request. Its caller sends one whenever a step
//! asks for it, and reports how the attempt ended.

use vstd::prelude::*;
use vstd::arithmetic::power2::{pow2, lemma_pow2_unfold, lemma_pow2_strictly_increases, lemma2_to64, lemma2_to64_rest};

verus! {

/// The largest number of attempts for which every wait fits in 64 bits.
pub const MAX_ATTEMPTS: usize = 64;

/// How one attempt ended.
#[derive(Debug)]
pub enum FetchOutcome {
    /// The status was a success and the body was read.
    Body(String),
    /// The status was a success, but reading the body failed with this message.
    BodyUnreadable(String),
    /// The status, held here, was not a success.
    Status(u16),
    /// The request itself failed with this message.
    RequestFailed(String),
}

/// What a `FetchOutcome` holds, as sequences of characters.
pub enum OutcomeView {
    Body(Seq<char>),
    BodyUnreadable(Seq<char>),
    Status(u16),
    RequestFailed(Seq<char>),
}

impl DeepView for FetchOutcome {
    type V = OutcomeView;

    open spec fn deep_view(&self) -> OutcomeView {
        match self {
            FetchOutcome::Body(b) => OutcomeView::Body(b@),
            FetchOutcome::BodyUnreadable(m) => OutcomeView::BodyUnreadable(m@),
            FetchOutcome::Status(c) => OutcomeView::Status(*c),
            FetchOutcome::RequestFailed(m) => OutcomeView::RequestFailed(m@),
        }
    }
}

/// Why a fetch was given up.
#[derive(Debug)]
pub enum FetchError {
    /// Every attempt was used, and this was the last failure of a request.
    Request(String),
    /// A body could not be read.
    Body(String),
    /// Every attempt was used, and no request had failed: only statuses.
    RetriesExhausted,
}

/// What the caller does next.
#[derive(Debug)]
pub enum FetchStep {
    /// Send a request now.
    Request,
    /// Sleep for this many seconds, then send a request.
    Wait(u64),
    /// The fetch is over: this is the body.
    Done(String),
    /// The fetch is over: it failed.
    Failed(FetchError),
}

/// What a `FetchStep` holds, as sequences of characters.
pub enum StepView {
    Request,
    Wait(nat),
    Done(Seq<char>),
    FailedRequest(Seq<char>),
    FailedBody(Seq<char>),
    FailedExhausted,
}

impl DeepView for FetchStep {
    type V = StepView;

    open spec fn deep_view(&self) -> StepView {
        match self {
            FetchStep::Request => StepView::Request,
            FetchStep::Wait(s) => StepView::Wait(*s as nat),
            FetchStep::Done(b) => StepView::Done(b@),
            FetchStep::Failed(FetchError::Request(m)) => StepView::FailedRequest(m@),
            FetchStep::Failed(FetchError::Body(m)) => StepView::FailedBody(m@),
            FetchStep::Failed(FetchError::RetriesExhausted) => StepView::FailedExhausted,
        }
    }
}

/// The state of one fetch: how many attempts were made, and the message of
/// the last request that failed. No more attempts are made than are allowed.
#[derive(Debug)]
pub struct Fetcher {
    max_retries: usize,
    attempts: usize,
    last_error: Option<String>,
}

/// A fetch as far as the retry rule goes: how many attempts are allowed,
/// how many were made, and the message of the last request that failed.
pub struct FetchModel {
    pub limit: nat,
    pub made: nat,
    pub last_failure: Option<Seq<char>>,
}

/// Whether an attempt that ended in `outcome` counts as failed and may be
/// retried: the status was no success, or the request itself failed.
pub open spec fn is_failure(outcome: OutcomeView) -> bool {
    outcome is Status || outcome is RequestFailed
}

/// The step by which a fetch ends when its attempts are used up.
pub open spec fn exhausted(last_failure: Option<Seq<char>>) -> StepView {
    match last_failure {
        Some(m) => StepView::FailedRequest(m),
        None => StepView::FailedExhausted,
    }
}

/// The step that is due in `m` before an attempt: a request while attempts
/// are left, else the end.
pub open spec fn first_step(m: FetchModel) -> StepView {
    if m.made < m.limit {
        StepView::Request
    } else {
        exhausted(m.last_failure)
    }
}

/// The fetch `m` after an attempt that ended in `outcome`.
pub open spec fn after_attempt(m: FetchModel, outcome: OutcomeView) -> FetchModel {
    FetchModel {
        limit: m.limit,
        made: m.made + 1,
        last_failure: match outcome {
            OutcomeView::RequestFailed(msg) => Some(msg),
            _ => m.last_failure,
        },
    }
}

/// The step that follows a failed attempt that left the fetch in `m`: a
/// wait of two to the power of the number of attempts made, in seconds,
/// while attempts are left, and else the end.
pub open spec fn after_failure(m: FetchModel) -> StepView {
    if m.made < m.limit {
        StepView::Wait(pow2(m.made))
    } else {
        exhausted(m.last_failure)
    }
}

/// The step that follows an attempt that ended in `outcome` and left the
/// fetch in `m`: the body ends the fetch, and so does a body that could not
/// be read; any other outcome is a failure.
pub open spec fn step_after(m: FetchModel, outcome: OutcomeView) -> StepView {
    match outcome {
        OutcomeView::Body(b) => StepView::Done(b),
        OutcomeView::BodyUnreadable(msg) => StepView::FailedBody(msg),
        _ => after_failure(m),
    }
}

/// Whether `step` asks for another attempt.
pub open spec fn asks_for_attempt(step: StepView) -> bool {
    step is Request || step is Wait
}

/// A whole fetch with up to `limit` attempts whose attempts end in
/// `outcomes[0]`, `outcomes[1]`, ...: an attempt is made for as long as the
/// step before asks for one. The result is the state and the last step.
pub open spec fn fetch_over(limit: nat, outcomes: Seq<OutcomeView>) -> (FetchModel, StepView)
    decreases outcomes.len(),
{
    if outcomes.len() == 0 {
        let m = FetchModel { limit, made: 0, last_failure: None };
        (m, first_step(m))
    } else {
        let (m, step) = fetch_over(limit, outcomes.drop_last());
        if asks_for_attempt(step) {
            let next = after_attempt(m, outcomes.last());
            (next, step_after(next, outcomes.last()))
        } else {
            (m, step)
        }
    }
}

/// While only failures come in and attempts are left, the fetch goes on: as
/// many attempts were made as outcomes came in, and another is asked for.
pub proof fn lemma_fetch_goes_on(limit: nat, outcomes: Seq<OutcomeView>)
    requires
        outcomes.len() < limit,
        forall|i: int| 0 <= i < outcomes.len() ==> is_failure(#[trigger] outcomes[i]),
    ensures
        fetch_over(limit, outcomes).0.limit == limit,
        fetch_over(limit, outcomes).0.made == outcomes.len(),
        asks_for_attempt(fetch_over(limit, outcomes).1),
    decreases outcomes.len(),
{
    if outcomes.len() > 0 {
        let init = outcomes.drop_last();
        assert forall|i: int| 0 <= i < init.len() implies is_failure(#[trigger] init[i]) by {
            assert(init[i] == outcomes[i]);
        }
        lemma_fetch_goes_on(limit, init);
    }
}

/// A fetch whose attempts fail until one yields a body, within the limit,
/// ends with that body after exactly as many attempts as outcomes came in.
pub proof fn lemma_fetch_succeeds(limit: nat, outcomes: Seq<OutcomeView>, body: Seq<char>)
    requires
        0 < outcomes.len() <= limit,
        forall|i: int| 0 <= i < outcomes.len() - 1 ==> is_failure(#[trigger] outcomes[i]),
        outcomes.last() == OutcomeView::Body(body),
    ensures
        fetch_over(limit, outcomes).0.made == outcomes.len(),
        fetch_over(limit, outcomes).1 == StepView::Done(body),
{
    let init = outcomes.drop_last();
    assert forall|i: int| 0 <= i < init.len() implies is_failure(#[trigger] init[i]) by {
        assert(init[i] == outcomes[i]);
    }
    lemma_fetch_goes_on(limit, init);
}

/// A fetch whose attempts all fail ends after exactly `limit` attempts, with
/// the last request failure or, where only statuses came in, without one;
/// outcomes beyond the limit are never asked for.
pub proof fn lemma_fetch_gives_up(limit: nat, outcomes: Seq<OutcomeView>)
    requires
        outcomes.len() >= limit,
        forall|i: int| 0 <= i < limit ==> is_failure(#[trigger] outcomes[i]),
    ensures
        fetch_over(limit, outcomes).0.made == limit,
        fetch_over(limit, outcomes).1 == exhausted(fetch_over(limit, outcomes).0.last_failure),
    decreases outcomes.len(),
{
    if outcomes.len() == 0 {
    } else if outcomes.len() == limit {
        let init = outcomes.drop_last();
        assert forall|i: int| 0 <= i < init.len() implies is_failure(#[trigger] init[i]) by {
            assert(init[i] == outcomes[i]);
        }
        lemma_fetch_goes_on(limit, init);
    } else {
        let init = outcomes.drop_last();
        assert forall|i: int| 0 <= i < limit implies is_failure(#[trigger] init[i]) by {
            assert(init[i] == outcomes[i]);
        }
        lemma_fetch_gives_up(limit, init);
    }
}

/// The seconds to wait before the retry that follows the `attempt`-th
/// attempt: two to the power of `attempt`.
pub fn backoff_secs(attempt: u32) -> (out: u64)
    requires
        attempt < MAX_ATTEMPTS,
    ensures
        out == pow2(attempt as nat),
{
    let mut out: u64 = 1;
    let mut i: u32 = 0;
    proof {
        lemma2_to64();
    }
    while i < attempt
        invariant
            i <= attempt < 64,
            out == pow2(i as nat),
        decreases attempt - i,
    {
        proof {
            lemma_pow2_unfold((i + 1) as nat);
            lemma2_to64_rest();
            if i + 1 < 63 {
                lemma_pow2_strictly_increases((i + 1) as nat, 63);
            }
        }
        out = out * 2;
        i += 1;
    }
    out
}

impl FetchError {
    /// The error as a line of text.
    pub fn message(&self) -> (out: String)
        ensures
            out@ == match self {
                FetchError::Request(m) => m@,
                FetchError::Body(m) => m@,
                FetchError::RetriesExhausted => "Maximum retries exceeded"@,
            },
    {
        match self {
            FetchError::Request(m) => m.clone(),
            FetchError::Body(m) => m.clone(),
            FetchError::RetriesExhausted => String::from_str("Maximum retries exceeded"),
        }
    }
}

impl Fetcher {
    #[verifier::type_invariant]
    spec fn inv(self) -> bool {
        self.attempts <= self.max_retries <= MAX_ATTEMPTS
    }

    /// The fetch as far as the retry rule goes.
    pub closed spec fn model(&self) -> FetchModel {
        FetchModel {
            limit: self.max_retries as nat,
            made: self.attempts as nat,
            last_failure: self.last_error.deep_view(),
        }
    }

    /// A fetch that may make up to `max_retries` attempts and has made none.
    pub fn new(max_retries: usize) -> (out: Fetcher)
        requires
            max_retries <= MAX_ATTEMPTS,
        ensures
            out.model() == (FetchModel { limit: max_retries as nat, made: 0, last_failure: None }),
    {
        Fetcher { max_retries, attempts: 0, last_error: None }
    }

    /// How many attempts are allowed.
    pub fn max_retries(&self) -> (out: usize)
        ensures
            out == self.model().limit,
    {
        self.max_retries
    }

    /// How many attempts were made.
    pub fn attempts(&self) -> (out: usize)
        ensures
            out == self.model().made,
            out <= self.model().limit,
    {
        proof {
            use_type_invariant(self);
        }
        self.attempts
    }

    /// What is due: a request while attempts are left, else the end.
    pub fn start(&self) -> (out: FetchStep)
        ensures
            out.deep_view() == first_step(self.model()),
    {
        if self.attempts < self.max_retries {
            FetchStep::Request
        } else {
            self.give_up()
        }
    }

    /// The step that ends a fetch whose attempts are used up.
    fn give_up(&self) -> (out: FetchStep)
        ensures
            out.deep_view() == exhausted(self.model().last_failure),
    {
        match &self.last_error {
            Some(m) => FetchStep::Failed(FetchError::Request(m.clone())),
            None => FetchStep::Failed(FetchError::RetriesExhausted),
        }
    }

    /// Takes in how the attempt just made ended, and says what to do next.
    ///
    /// A body ends the fetch with success, and a body that could not be read
    /// ends it with that failure. Any other outcome counts as a failed
    /// attempt: a failed request is remembered, and the fetch goes on after a
    /// wait while attempts are left.
    pub fn on_outcome(&mut self, outcome: FetchOutcome) -> (out: FetchStep)
        requires
            old(self).model().made < old(self).model().limit,
        ensures
            final(self).model() == after_attempt(old(self).model(), outcome.deep_view()),
            out.deep_view() == step_after(final(self).model(), outcome.deep_view()),
    {
        proof {
            use_type_invariant(&*self);
        }
        self.attempts = self.attempts + 1;
        match outcome {
            FetchOutcome::Body(b) => FetchStep::Done(b),
            FetchOutcome::BodyUnreadable(m) => FetchStep::Failed(FetchError::Body(m)),
            FetchOutcome::Status(_) => self.retry_or_give_up(),
            FetchOutcome::RequestFailed(m) => {
                self.last_error = Some(m);
                self.retry_or_give_up()
            },
        }
    }

    /// The step after a failed attempt.
    fn retry_or_give_up(&self) -> (out: FetchStep)
        ensures
            out.deep_view() == after_failure(self.model()),
    {
        proof {
            use_type_invariant(self);
        }
        if self.attempts < self.max_retries {
            FetchStep::Wait(backoff_secs(self.attempts as u32))
        } else {
            self.give_up()
        }
    }
}

} // verus!
