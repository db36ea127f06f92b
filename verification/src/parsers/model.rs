//! The mathematical model of a parse failure: what a failure covers, how
//! plausible it is, and how failures combine.

use vstd::prelude::*;

verus! {

/// The similarity score that stands for a certain match. Scores are fixed-point
/// numbers: a score `s` stands for the fraction `s / FULL_SIMILARITY`.
pub const FULL_SIMILARITY: u64 = 1_000_000;

/// A parse failure as a mathematical value.
pub enum ErrorModel {
    /// One element did not match: the similarity score and the position.
    Single(nat, nat),
    /// A chain of parsers that were all expected to succeed.
    Add(Seq<ErrorModel>),
    /// Every branch of a choice failed.
    Or(Seq<ErrorModel>),
    /// A part of the input that did parse: where it starts and where it ends.
    Succeed(nat, nat),
    /// A failure with an explanation attached.
    Hinted(Box<ErrorModel>, Seq<char>),
}

/// The sum of the similarity scores of the first `n` items of `items`.
pub open spec fn sum_similarity(items: Seq<ErrorModel>, n: nat) -> nat
    decreases items, n,
{
    if n == 0 || n > items.len() {
        0
    } else {
        sum_similarity(items, (n - 1) as nat) + items[n - 1].similarity()
    }
}

/// The index of the most similar of the first `n` items of `items`; among equally
/// similar items, the first.
pub open spec fn best_index(items: Seq<ErrorModel>, n: nat) -> nat
    decreases items, n,
{
    if n <= 1 || n > items.len() {
        0
    } else {
        let before = best_index(items, (n - 1) as nat);
        if before < n - 1 && items[n - 1].similarity() > items[before as int].similarity() {
            (n - 1) as nat
        } else {
            before
        }
    }
}

impl ErrorModel {
    /// Where the span that the failure concerns starts. A chain starts where its
    /// first item starts; a choice, where its most similar branch starts.
    pub open spec fn start(self) -> nat
        decreases self, 1nat,
    {
        match self {
            ErrorModel::Single(_, position) => position,
            ErrorModel::Add(items) => if items.len() > 0 {
                items[0].start()
            } else {
                0
            },
            ErrorModel::Or(items) => {
                let best = best_index(items, items.len());
                if best < items.len() {
                    items[best as int].start()
                } else {
                    0
                }
            },
            ErrorModel::Succeed(start, _) => start,
            ErrorModel::Hinted(inner, _) => inner.start(),
        }
    }

    /// Where the span that the failure concerns ends: the first position behind
    /// it. A chain ends where its last item ends; a choice, where its most similar
    /// branch ends.
    pub open spec fn end(self) -> nat
        decreases self, 1nat,
    {
        match self {
            ErrorModel::Single(_, position) => position + 1,
            ErrorModel::Add(items) => if items.len() > 0 {
                items[items.len() - 1].end()
            } else {
                0
            },
            ErrorModel::Or(items) => {
                let best = best_index(items, items.len());
                if best < items.len() {
                    items[best as int].end()
                } else {
                    0
                }
            },
            ErrorModel::Succeed(_, end) => end,
            ErrorModel::Hinted(inner, _) => inner.end(),
        }
    }

    /// The number of positions in the span; an inverted span has none.
    pub open spec fn span(self) -> nat
        decreases self, 2nat,
    {
        if self.start() < self.end() {
            (self.end() - self.start()) as nat
        } else {
            0
        }
    }

    /// The plausibility score of the failure. A chain scores the sum of the scores
    /// of its items divided by the number of positions that the chain spans, the
    /// fraction being dropped; a choice scores what its most similar branch
    /// scores; a part that did parse scores `FULL_SIMILARITY`.
    pub open spec fn similarity(self) -> nat
        decreases self, 3nat,
    {
        match self {
            ErrorModel::Single(similarity, _) => similarity,
            ErrorModel::Add(items) => if self.span() > 0 {
                sum_similarity(items, items.len()) / self.span()
            } else {
                0
            },
            ErrorModel::Or(items) => {
                let best = best_index(items, items.len());
                if best < items.len() {
                    items[best as int].similarity()
                } else {
                    0
                }
            },
            ErrorModel::Succeed(_, _) => FULL_SIMILARITY as nat,
            ErrorModel::Hinted(inner, _) => inner.similarity(),
        }
    }

    /// A failure is well formed when its scores are at most `FULL_SIMILARITY`, the
    /// position after each mismatch is an offset that the machine has, no list is
    /// empty, and the items of a chain each cover at least one position and come
    /// in the order of the input: each ends before the later ones start.
    pub open spec fn well_formed(self) -> bool
        decreases self, 0nat,
    {
        match self {
            ErrorModel::Single(similarity, position) => {
                &&& similarity <= FULL_SIMILARITY
                &&& position < usize::MAX
            },
            ErrorModel::Add(items) => {
                &&& items.len() > 0
                &&& forall|i: int|
                    0 <= i < items.len() ==> {
                        &&& (#[trigger] items[i]).well_formed()
                        &&& items[i].start() < items[i].end()
                    }
                &&& forall|i: int, j: int|
                    0 <= i < j < items.len() ==> (#[trigger] items[i]).end() <= (
                    #[trigger] items[j]).start()
            },
            ErrorModel::Or(items) => {
                &&& items.len() > 0
                &&& forall|i: int| 0 <= i < items.len() ==> (#[trigger] items[i]).well_formed()
            },
            ErrorModel::Succeed(_, _) => true,
            ErrorModel::Hinted(inner, _) => inner.well_formed(),
        }
    }

    /// The items that the failure contributes to a chain: its own items where it
    /// is a chain already, else itself.
    pub open spec fn sequence_parts(self) -> Seq<ErrorModel> {
        match self {
            ErrorModel::Add(items) => items,
            _ => seq![self],
        }
    }

    /// The items that the failure contributes to a choice: its own items where it
    /// is a choice already, else itself.
    pub open spec fn alternative_parts(self) -> Seq<ErrorModel> {
        match self {
            ErrorModel::Or(items) => items,
            _ => seq![self],
        }
    }

    /// The failure of `self` followed by `next`, as one flat chain.
    pub open spec fn combine_sequentially(self, next: ErrorModel) -> ErrorModel {
        ErrorModel::Add(self.sequence_parts() + next.sequence_parts())
    }

    /// The failure of both `self` and `other`, as one flat choice.
    pub open spec fn combine_as_alternatives(self, other: ErrorModel) -> ErrorModel {
        ErrorModel::Or(self.alternative_parts() + other.alternative_parts())
    }

    /// No chain stands directly in a chain, and no choice directly in a choice,
    /// anywhere in the failure.
    pub open spec fn flat(self) -> bool
        decreases self,
    {
        match self {
            ErrorModel::Add(items) => forall|i: int|
                0 <= i < items.len() ==> {
                    &&& !((#[trigger] items[i]) is Add)
                    &&& items[i].flat()
                },
            ErrorModel::Or(items) => forall|i: int|
                0 <= i < items.len() ==> {
                    &&& !((#[trigger] items[i]) is Or)
                    &&& items[i].flat()
                },
            ErrorModel::Hinted(inner, _) => inner.flat(),
            _ => true,
        }
    }
}

/// The most similar item of a list is one of its items, no item is more similar,
/// and every item before it is strictly less similar.
pub proof fn lemma_best_index(items: Seq<ErrorModel>, n: nat)
    requires
        0 < n <= items.len(),
    ensures
        best_index(items, n) < n,
        forall|j: int|
            0 <= j < n ==> (#[trigger] items[j]).similarity() <= items[best_index(
                items,
                n,
            ) as int].similarity(),
        forall|j: int|
            0 <= j < best_index(items, n) ==> (#[trigger] items[j]).similarity() < items[best_index(
                items,
                n,
            ) as int].similarity(),
    decreases n,
{
    if n > 1 {
        lemma_best_index(items, (n - 1) as nat);
    }
}

/// The scores of the first `n` items of a well-formed chain add up to at most
/// `FULL_SIMILARITY` for each position that those items span together.
pub proof fn lemma_sum_similarity_bounded(items: Seq<ErrorModel>, n: nat)
    requires
        ErrorModel::Add(items).well_formed(),
        0 < n <= items.len(),
    ensures
        items[0].start() < items[n - 1].end(),
        sum_similarity(items, n) <= FULL_SIMILARITY * (items[n - 1].end() - items[0].start()),
    decreases items, n,
{
    let last = items[n - 1];
    let first_start = items[0].start() as int;
    lemma_similarity_bounded(last);
    if n > 1 {
        lemma_sum_similarity_bounded(items, (n - 1) as nat);
    }
    let covered: int = if n > 1 {
        items[n - 2].end() - first_start
    } else {
        0
    };
    let width = last.end() - first_start;
    assert(sum_similarity(items, (n - 1) as nat) <= FULL_SIMILARITY * covered);
    assert(FULL_SIMILARITY * width >= FULL_SIMILARITY * covered + FULL_SIMILARITY)
        by (nonlinear_arith)
        requires
            width >= covered + 1,
    ;
}

/// The similarity score of a well-formed failure is at most `FULL_SIMILARITY`:
/// as a fraction it lies between 0 and 1.
pub proof fn lemma_similarity_bounded(error: ErrorModel)
    requires
        error.well_formed(),
    ensures
        error.similarity() <= FULL_SIMILARITY,
    decreases error, 0nat,
{
    match error {
        ErrorModel::Single(_, _) => {},
        ErrorModel::Add(items) => {
            lemma_sum_similarity_bounded(items, items.len());
            let width = error.span();
            let sum = sum_similarity(items, items.len());
            assert(sum / width <= FULL_SIMILARITY) by (nonlinear_arith)
                requires
                    width > 0,
                    sum <= FULL_SIMILARITY * width,
            ;
        },
        ErrorModel::Or(items) => {
            lemma_best_index(items, items.len());
            lemma_similarity_bounded(items[best_index(items, items.len()) as int]);
        },
        ErrorModel::Succeed(_, _) => {},
        ErrorModel::Hinted(inner, _) => {
            lemma_similarity_bounded(*inner);
        },
    }
}

/// A choice reports the span and the score of its most similar branch; where
/// several branches are equally similar, of the first of them.
pub proof fn lemma_alternative_follows_best(items: Seq<ErrorModel>, k: int)
    requires
        0 <= k < items.len(),
        forall|j: int|
            0 <= j < items.len() ==> (#[trigger] items[j]).similarity() <= items[k].similarity(),
        forall|j: int| 0 <= j < k ==> (#[trigger] items[j]).similarity() < items[k].similarity(),
    ensures
        ErrorModel::Or(items).start() == items[k].start(),
        ErrorModel::Or(items).end() == items[k].end(),
        ErrorModel::Or(items).similarity() == items[k].similarity(),
{
    lemma_best_index(items, items.len());
}

/// Combining failures in a chain is associative, and the chain stays flat:
/// however three failures are grouped, the same list of items comes out, and
/// none of its items is a chain where none of theirs was.
pub proof fn lemma_combine_sequentially_associative(a: ErrorModel, b: ErrorModel, c: ErrorModel)
    ensures
        a.combine_sequentially(b).combine_sequentially(c) == a.combine_sequentially(
            b.combine_sequentially(c),
        ),
        a.combine_sequentially(b).combine_sequentially(c) == ErrorModel::Add(
            a.sequence_parts() + b.sequence_parts() + c.sequence_parts(),
        ),
        a.flat() && b.flat() && c.flat() ==> a.combine_sequentially(b).combine_sequentially(
            c,
        ).flat(),
{
    let left = (a.sequence_parts() + b.sequence_parts()) + c.sequence_parts();
    let right = a.sequence_parts() + (b.sequence_parts() + c.sequence_parts());
    assert(left =~= right);
    if a.flat() && b.flat() && c.flat() {
        lemma_combine_sequentially_flat(a, b);
        lemma_combine_sequentially_flat(a.combine_sequentially(b), c);
    }
}

/// A chain made of two flat failures is flat.
pub proof fn lemma_combine_sequentially_flat(a: ErrorModel, b: ErrorModel)
    requires
        a.flat(),
        b.flat(),
    ensures
        a.combine_sequentially(b).flat(),
{
    let items = a.sequence_parts() + b.sequence_parts();
    assert(forall|i: int|
        0 <= i < items.len() ==> !((#[trigger] items[i]) is Add) && items[i].flat());
}

/// Combining failures in a choice is associative, and the choice stays flat.
pub proof fn lemma_combine_as_alternatives_associative(a: ErrorModel, b: ErrorModel, c: ErrorModel)
    ensures
        a.combine_as_alternatives(b).combine_as_alternatives(c) == a.combine_as_alternatives(
            b.combine_as_alternatives(c),
        ),
        a.combine_as_alternatives(b).combine_as_alternatives(c) == ErrorModel::Or(
            a.alternative_parts() + b.alternative_parts() + c.alternative_parts(),
        ),
        a.flat() && b.flat() && c.flat() ==> a.combine_as_alternatives(b).combine_as_alternatives(
            c,
        ).flat(),
{
    let left = (a.alternative_parts() + b.alternative_parts()) + c.alternative_parts();
    let right = a.alternative_parts() + (b.alternative_parts() + c.alternative_parts());
    assert(left =~= right);
    if a.flat() && b.flat() && c.flat() {
        lemma_combine_as_alternatives_flat(a, b);
        lemma_combine_as_alternatives_flat(a.combine_as_alternatives(b), c);
    }
}

/// A choice made of two flat failures is flat.
pub proof fn lemma_combine_as_alternatives_flat(a: ErrorModel, b: ErrorModel)
    requires
        a.flat(),
        b.flat(),
    ensures
        a.combine_as_alternatives(b).flat(),
{
    let items = a.alternative_parts() + b.alternative_parts();
    assert(forall|i: int|
        0 <= i < items.len() ==> !((#[trigger] items[i]) is Or) && items[i].flat());
}

/// Two well-formed failures, each covering at least one position, the second
/// starting no earlier than the first ends, make a well-formed chain that runs
/// from the start of the first to the end of the second.
pub proof fn lemma_combine_sequentially_well_formed(a: ErrorModel, b: ErrorModel)
    requires
        a.well_formed(),
        b.well_formed(),
        a.start() < a.end(),
        a.end() <= b.start(),
        b.start() < b.end(),
    ensures
        a.combine_sequentially(b).well_formed(),
        a.combine_sequentially(b).start() == a.start(),
        a.combine_sequentially(b).end() == b.end(),
{
    let items = a.sequence_parts() + b.sequence_parts();
    assert(forall|i: int|
        0 <= i < items.len() ==> (#[trigger] items[i]).well_formed() && items[i].start()
            < items[i].end());
    assert(forall|i: int, j: int|
        0 <= i < j < items.len() ==> (#[trigger] items[i]).end() <= (#[trigger] items[j]).start());
}

/// Two well-formed failures make a well-formed choice, which reports what the
/// more similar of the two reports; where they are equally similar, what the
/// first reports.
pub proof fn lemma_combine_as_alternatives_well_formed(a: ErrorModel, b: ErrorModel)
    requires
        a.well_formed(),
        b.well_formed(),
    ensures
        a.combine_as_alternatives(b).well_formed(),
        a.similarity() >= b.similarity() ==> {
            &&& a.combine_as_alternatives(b).start() == a.start()
            &&& a.combine_as_alternatives(b).end() == a.end()
            &&& a.combine_as_alternatives(b).similarity() == a.similarity()
        },
        a.similarity() < b.similarity() ==> {
            &&& a.combine_as_alternatives(b).start() == b.start()
            &&& a.combine_as_alternatives(b).end() == b.end()
            &&& a.combine_as_alternatives(b).similarity() == b.similarity()
        },
{
    let left = a.alternative_parts();
    let right = b.alternative_parts();
    let items = left + right;
    assert(forall|i: int| 0 <= i < items.len() ==> (#[trigger] items[i]).well_formed());
    lemma_best_index(left, left.len());
    lemma_best_index(right, right.len());
    let k: int = if a.similarity() >= b.similarity() {
        best_index(left, left.len()) as int
    } else {
        (left.len() + best_index(right, right.len())) as int
    };
    assert(forall|j: int|
        0 <= j < items.len() ==> (#[trigger] items[j]).similarity() <= items[k].similarity());
    assert(forall|j: int|
        0 <= j < k ==> (#[trigger] items[j]).similarity() < items[k].similarity());
    lemma_alternative_follows_best(items, k);
}

} // verus!
