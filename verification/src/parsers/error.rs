//! Parse failures as values, and the two operators that combine them.

use super::model::{
    best_index, lemma_similarity_bounded, sum_similarity, ErrorModel, FULL_SIMILARITY,
};
use std::ops::Range;
use vstd::prelude::*;

verus! {

/// A parse failure. `Succeed` records a part of the input that did parse, so
/// that a chain that failed late keeps the credit for what came before.
#[derive(Debug, PartialEq, Eq)]
pub enum Error {
    /// One element did not match: the similarity score and the position.
    Single(u64, usize),
    /// A chain of parsers that were all expected to succeed.
    Add(Vec<Error>),
    /// Every branch of a choice failed.
    Or(Vec<Error>),
    /// A part of the input that did parse.
    Succeed(Range<usize>),
    /// A failure with an explanation attached.
    Hinted(Box<Error>, String),
}

/// The models of a list of failures, item by item.
pub open spec fn models(items: Seq<Error>) -> Seq<ErrorModel>
    decreases items,
{
    Seq::new(
        items.len(),
        |i: int|
            if 0 <= i < items.len() {
                items[i].model()
            } else {
                ErrorModel::Or(Seq::empty())
            },
    )
}

impl Error {
    /// The mathematical value that the failure stands for.
    pub open spec fn model(self) -> ErrorModel
        decreases self,
    {
        match self {
            Error::Single(similarity, position) => ErrorModel::Single(
                similarity as nat,
                position as nat,
            ),
            Error::Add(items) => ErrorModel::Add(models(items@)),
            Error::Or(items) => ErrorModel::Or(models(items@)),
            Error::Succeed(range) => ErrorModel::Succeed(range.start as nat, range.end as nat),
            Error::Hinted(inner, message) => ErrorModel::Hinted(Box::new(inner.model()), message@),
        }
    }
}

impl View for Error {
    type V = ErrorModel;

    open spec fn view(&self) -> ErrorModel {
        self.model()
    }
}

/// The models of a concatenation are the concatenation of the models.
pub proof fn lemma_models_concat(first: Seq<Error>, second: Seq<Error>)
    ensures
        models(first + second) == models(first) + models(second),
{
}

/// The models of a list of one failure.
pub proof fn lemma_models_single(item: Error)
    ensures
        models(seq![item]) == seq![item@],
{
}

/// `+` on failures is specified through their models, in the `ensures` clause
/// of `add`, and not through a function on the failures themselves.
impl vstd::std_specs::ops::AddSpecImpl for Error {
    open spec fn obeys_add_spec() -> bool {
        false
    }

    open spec fn add_req(self, rhs: Error) -> bool {
        true
    }

    open spec fn add_spec(self, rhs: Error) -> Error {
        self
    }
}

impl std::ops::Add for Error {
    type Output = Error;

    /// Combines two failures sequentially.
    fn add(self, rhs: Error) -> (combined: Error)
        ensures
            combined@ == self@.combine_sequentially(rhs@),
    {
        match (self, rhs) {
            (Error::Add(mut first), Error::Add(mut second)) => {
                proof {
                    lemma_models_concat(first@, second@);
                }
                first.append(&mut second);
                Error::Add(first)
            },
            (Error::Add(mut first), second) => {
                proof {
                    lemma_models_concat(first@, seq![second]);
                    assert(first@.push(second) =~= first@ + seq![second]);
                    lemma_models_single(second);
                }
                first.push(second);
                Error::Add(first)
            },
            (first, Error::Add(mut second)) => {
                proof {
                    lemma_models_concat(seq![first], second@);
                    assert(second@.insert(0, first) =~= seq![first] + second@);
                    lemma_models_single(first);
                }
                second.insert(0, first);
                Error::Add(second)
            },
            (first, second) => {
                proof {
                    lemma_models_concat(seq![first], seq![second]);
                    assert(Seq::<Error>::empty().push(first).push(second) =~= seq![first]
                        + seq![second]);
                    lemma_models_single(first);
                    lemma_models_single(second);
                }
                let mut items = Vec::new();
                items.push(first);
                items.push(second);
                Error::Add(items)
            },
        }
    }
}

/// `|` on failures is specified through their models, in the `ensures` clause
/// of `bitor`, and not through a function on the failures themselves.
impl vstd::std_specs::ops::BitOrSpecImpl for Error {
    open spec fn obeys_bitor_spec() -> bool {
        false
    }

    open spec fn bitor_req(self, rhs: Error) -> bool {
        true
    }

    open spec fn bitor_spec(self, rhs: Error) -> Error {
        self
    }
}

impl std::ops::BitOr for Error {
    type Output = Error;

    /// Combines two failures as alternatives.
    fn bitor(self, rhs: Error) -> (combined: Error)
        ensures
            combined@ == self@.combine_as_alternatives(rhs@),
    {
        match (self, rhs) {
            (Error::Or(mut first), Error::Or(mut second)) => {
                proof {
                    lemma_models_concat(first@, second@);
                }
                first.append(&mut second);
                Error::Or(first)
            },
            (Error::Or(mut first), second) => {
                proof {
                    lemma_models_concat(first@, seq![second]);
                    lemma_models_single(second);
                    assert(first@.push(second) =~= first@ + seq![second]);
                }
                first.push(second);
                Error::Or(first)
            },
            (first, Error::Or(mut second)) => {
                proof {
                    lemma_models_concat(seq![first], second@);
                    lemma_models_single(first);
                    assert(second@.insert(0, first) =~= seq![first] + second@);
                }
                second.insert(0, first);
                Error::Or(second)
            },
            (first, second) => {
                proof {
                    lemma_models_concat(seq![first], seq![second]);
                    lemma_models_single(first);
                    lemma_models_single(second);
                    assert(Seq::<Error>::empty().push(first).push(second) =~= seq![first]
                        + seq![second]);
                }
                let mut items = Vec::new();
                items.push(first);
                items.push(second);
                Error::Or(items)
            },
        }
    }
}

/// Measures a chain of failures: `None` where the chain is not well formed.
fn inspect_chain(items: &Vec<Error>) -> (measure: Option<(usize, usize, u64)>)
    ensures
        measure is Some <==> ErrorModel::Add(models(items@)).well_formed(),
        measure matches Some((start, end, similarity)) ==> {
            &&& start == ErrorModel::Add(models(items@)).start()
            &&& end == ErrorModel::Add(models(items@)).end()
            &&& similarity == ErrorModel::Add(models(items@)).similarity()
        },
    decreases items,
{
    let ghost chain = models(items@);
    let n = items.len();
    if n == 0 {
        return None;
    }
    let mut i: usize = 0;
    let mut first_start: usize = 0;
    let mut last_end: usize = 0;
    let mut sum: u128 = 0;
    while i < n
        invariant
            n == items.len(),
            i <= n,
            chain == models(items@),
            forall|j: int|
                0 <= j < i ==> {
                    &&& (#[trigger] chain[j]).well_formed()
                    &&& chain[j].start() < chain[j].end()
                    &&& chain[j].end() <= last_end
                },
            forall|j: int, k: int|
                0 <= j < k < i ==> (#[trigger] chain[j]).end() <= (#[trigger] chain[k]).start(),
            i > 0 ==> first_start == chain[0].start() && last_end == chain[i - 1].end(),
            i == 0 ==> first_start == 0 && last_end == 0,
            first_start <= last_end,
            sum == sum_similarity(chain, i as nat),
            sum <= FULL_SIMILARITY * (last_end - first_start),
        decreases n - i,
    {
        match items[i].inspect() {
            None => {
                return None;
            },
            Some((start, end, similarity)) => {
                if start >= end {
                    return None;
                }
                if i > 0 && last_end > start {
                    return None;
                }
                proof {
                    lemma_similarity_bounded(chain[i as int]);
                    let covered = last_end - first_start;
                    let width = if i == 0 {
                        end - start
                    } else {
                        end - first_start
                    };
                    assert(FULL_SIMILARITY * width >= FULL_SIMILARITY * covered + FULL_SIMILARITY)
                        by (nonlinear_arith)
                        requires
                            width >= covered + 1,
                    ;
                    assert(FULL_SIMILARITY * width <= FULL_SIMILARITY * usize::MAX)
                        by (nonlinear_arith)
                        requires
                            width <= usize::MAX,
                    ;
                }
                if i == 0 {
                    first_start = start;
                }
                last_end = end;
                sum = sum + similarity as u128;
                i = i + 1;
            },
        }
    }
    let width = last_end - first_start;
    proof {
        assert(sum as nat / width as nat <= FULL_SIMILARITY) by (nonlinear_arith)
            requires
                width > 0,
                sum <= FULL_SIMILARITY * width,
        ;
        let whole = ErrorModel::Add(chain);
        assert(whole.span() == width);
    }
    Some((first_start, last_end, (sum / width as u128) as u64))
}

/// Measures a choice of failures: `None` where the choice is not well formed.
fn inspect_choice(items: &Vec<Error>) -> (measure: Option<(usize, usize, u64)>)
    ensures
        measure is Some <==> ErrorModel::Or(models(items@)).well_formed(),
        measure matches Some((start, end, similarity)) ==> {
            &&& start == ErrorModel::Or(models(items@)).start()
            &&& end == ErrorModel::Or(models(items@)).end()
            &&& similarity == ErrorModel::Or(models(items@)).similarity()
        },
    decreases items,
{
    let ghost choice = models(items@);
    let n = items.len();
    if n == 0 {
        return None;
    }
    let mut i: usize = 0;
    let mut best: (usize, usize, u64) = (0, 0, 0);
    while i < n
        invariant
            n == items.len(),
            i <= n,
            choice == models(items@),
            forall|j: int| 0 <= j < i ==> (#[trigger] choice[j]).well_formed(),
            i > 0 ==> {
                let k = best_index(choice, i as nat) as int;
                &&& 0 <= k < i
                &&& best.0 == choice[k].start()
                &&& best.1 == choice[k].end()
                &&& best.2 == choice[k].similarity()
            },
        decreases n - i,
    {
        match items[i].inspect() {
            None => {
                assert(!choice[i as int].well_formed());
                return None;
            },
            Some(measure) => {
                if i == 0 || measure.2 > best.2 {
                    best = measure;
                }
                i = i + 1;
            },
        }
    }
    Some(best)
}

/// The text that the `Debug` form derived for `Error` gives for a failure.
pub uninterp spec fn debug_text(error: ErrorModel) -> Seq<char>;

/// Formats a failure with `format!` and `{:?}`: the structural form that
/// `#[derive(Debug)]` writes. Nothing is claimed of the text but that it is the
/// same for the same failure.
#[verifier::external_body]
fn debug_string(error: &Error) -> (text: String)
    ensures
        text@ == debug_text(error@),
{
    format!("{:?}", error)
}

impl Error {
    /// The text of the failure: the message of a hinted failure as it is, and the
    /// structural form of any other.
    pub fn to_string(&self) -> (text: String)
        ensures
            self@ matches ErrorModel::Hinted(_, message) ==> text@ == message,
            !(self@ is Hinted) ==> text@ == debug_text(self@),
    {
        match self {
            Error::Hinted(_, message) => message.clone(),
            _ => debug_string(self),
        }
    }

    /// Measures the failure in one pass: `None` where it is not well formed, else
    /// the start and the end of its span and its similarity score.
    pub fn inspect(&self) -> (measure: Option<(usize, usize, u64)>)
        ensures
            measure is Some <==> self@.well_formed(),
            measure matches Some((start, end, similarity)) ==> {
                &&& start == self@.start()
                &&& end == self@.end()
                &&& similarity == self@.similarity()
            },
        decreases self,
    {
        match self {
            Error::Single(similarity, position) => {
                if *similarity <= FULL_SIMILARITY && *position < usize::MAX {
                    Some((*position, *position + 1, *similarity))
                } else {
                    None
                }
            },
            Error::Add(items) => inspect_chain(items),
            Error::Or(items) => inspect_choice(items),
            Error::Succeed(range) => Some((range.start, range.end, FULL_SIMILARITY)),
            Error::Hinted(inner, _) => inner.inspect(),
        }
    }

    /// Whether the failure is well formed: whether `range` and `similarity`
    /// may be asked of it.
    pub fn is_well_formed(&self) -> (ok: bool)
        ensures
            ok == self@.well_formed(),
    {
        self.inspect().is_some()
    }

    /// The span of the input that the failure concerns.
    pub fn range(&self) -> (range: Range<usize>)
        requires
            self@.well_formed(),
        ensures
            range.start == self@.start(),
            range.end == self@.end(),
    {
        match self.inspect() {
            Some((start, end, _)) => start..end,
            None => 0..0,
        }
    }

    /// The plausibility score of the failure, out of `FULL_SIMILARITY`.
    pub fn similarity(&self) -> (similarity: u64)
        requires
            self@.well_formed(),
        ensures
            similarity == self@.similarity(),
            similarity <= FULL_SIMILARITY,
    {
        proof {
            lemma_similarity_bounded(self@);
        }
        match self.inspect() {
            Some((_, _, similarity)) => similarity,
            None => 0,
        }
    }
}

} // verus!
