use vstd::prelude::*;

verus! {

/// How the destination refused to create a bucket.
#[derive(Debug, Clone, Copy, PartialEq, Eq, Structural)]
pub enum CreateBucketError {
    /// The name is taken by another account.
    AlreadyExists,
    /// The name is already a bucket of the caller's.
    AlreadyOwnedByCaller,
    /// Any other failure.
    Other,
}

/// Why a destination bucket could not be provided.
#[derive(Debug, Clone, Copy, PartialEq, Eq, Structural)]
pub enum CreationFailure {
    /// Creation failed in an unexpected way.
    Unexpected,
    /// The name is taken by another account and no suffix is configured.
    MissingSuffix,
}

/// What to do after a first request to create the destination bucket.
pub enum CreationStep {
    /// The bucket is there and is the caller's: go on with this name.
    Ready(String),
    /// The name is another account's: create this name instead, and go on
    /// with it whatever that request answers.
    CreateRenamed(String),
    /// Stop the run.
    Failed(CreationFailure),
}

/// What a `CreationStep` says, over the names' characters.
pub enum StepView {
    Ready(Seq<char>),
    CreateRenamed(Seq<char>),
    Failed(CreationFailure),
}

impl View for CreationStep {
    type V = StepView;

    open spec fn view(&self) -> StepView {
        match self {
            CreationStep::Ready(n) => StepView::Ready(n@),
            CreationStep::CreateRenamed(n) => StepView::CreateRenamed(n@),
            CreationStep::Failed(f) => StepView::Failed(*f),
        }
    }
}

/// The characters of an optional string.
pub open spec fn opt_view(s: Option<String>) -> Option<Seq<char>> {
    match s {
        Some(t) => Some(t@),
        None => None,
    }
}

/// The step after creating `name`: a new bucket or one that the caller
/// already owns is ready; a name taken elsewhere is retried once with the
/// suffix appended; anything else is fatal.
pub open spec fn step_of(
    name: Seq<char>,
    suffix: Option<Seq<char>>,
    outcome: Result<(), CreateBucketError>,
) -> StepView {
    match outcome {
        Ok(()) => StepView::Ready(name),
        Err(CreateBucketError::AlreadyOwnedByCaller) => StepView::Ready(name),
        Err(CreateBucketError::AlreadyExists) => match suffix {
            Some(s) => StepView::CreateRenamed(name + s),
            None => StepView::Failed(CreationFailure::MissingSuffix),
        },
        Err(CreateBucketError::Other) => StepView::Failed(CreationFailure::Unexpected),
    }
}

/// Decides how to go on after asking the destination to create `name`.
pub fn after_create(
    name: &String,
    suffix: &Option<String>,
    outcome: Result<(), CreateBucketError>,
) -> (r: CreationStep)
    ensures
        r@ == step_of(name@, opt_view(*suffix), outcome),
{
    match outcome {
        Ok(()) => CreationStep::Ready(name.clone()),
        Err(CreateBucketError::AlreadyOwnedByCaller) => CreationStep::Ready(name.clone()),
        Err(CreateBucketError::AlreadyExists) => match suffix {
            Some(s) => {
                let renamed = name.clone().concat(s.as_str());
                CreationStep::CreateRenamed(renamed)
            },
            None => CreationStep::Failed(CreationFailure::MissingSuffix),
        },
        Err(CreateBucketError::Other) => CreationStep::Failed(CreationFailure::Unexpected),
    }
}

/// The buckets of an account, as far as creation is concerned: the names the
/// caller owns and those that other accounts own.
pub struct Namespace {
    pub owned: Set<Seq<char>>,
    pub foreign: Set<Seq<char>>,
}

/// What the destination answers to a request to create `name`, and the
/// buckets afterwards.
pub open spec fn create_in(ns: Namespace, name: Seq<char>) -> (Result<(), CreateBucketError>, Namespace) {
    if ns.owned.contains(name) {
        (Err(CreateBucketError::AlreadyOwnedByCaller), ns)
    } else if ns.foreign.contains(name) {
        (Err(CreateBucketError::AlreadyExists), ns)
    } else {
        (Ok(()), Namespace { owned: ns.owned.insert(name), foreign: ns.foreign })
    }
}

/// Creating a bucket is idempotent: after a first request has made `name`
/// the caller's, a second request leaves the buckets as they are and the run
/// goes on with the same name, as after a fresh creation.
pub proof fn lemma_create_idempotent(ns: Namespace, name: Seq<char>, suffix: Option<Seq<char>>)
    requires
        !ns.foreign.contains(name),
    ensures
        ({
            let (first, ns1) = create_in(ns, name);
            let (second, ns2) = create_in(ns1, name);
            &&& ns1.owned.contains(name)
            &&& ns2 == ns1
            &&& step_of(name, suffix, first) == StepView::Ready(name)
            &&& step_of(name, suffix, second) == StepView::Ready(name)
        }),
{
}

} // verus!
