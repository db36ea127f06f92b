//! What each combinator returns, as a function of what its parts return.

use super::model::{ErrorModel, FULL_SIMILARITY};
use super::sequence::Element;
use vstd::prelude::*;

verus! {

/// What a parser produces: nothing, an element of the input, or the pair of what
/// two parsers in a row produced.
#[derive(Debug, PartialEq, Eq)]
pub enum Value<E> {
    /// The output of a parser whose output was discarded.
    Unit,
    /// An element that a literal matched.
    Element(E),
    /// The outputs of the two parts of a sequence.
    Pair(Box<Value<E>>, Box<Value<E>>),
}

/// The result of a parse as a mathematical value: the output and the offset
/// behind what was consumed, or the failure.
pub type Outcome<E> = Result<(Value<E>, nat), ErrorModel>;

/// What a transform returns for `value`.
pub open spec fn transformed<E, F: Fn(Value<E>) -> Value<E>>(f: F, value: Value<E>) -> Value<E> {
    choose|output: Value<E>| call_ensures(f, (value,), output)
}

/// Whether the transform did return what `transformed` names for the output of
/// `inner`. A parser that ran a transform says so of it, and with that a caller
/// learns of the output all that the transform promises.
pub open spec fn answered<E, F: Fn(Value<E>) -> Value<E>>(f: F, inner: Outcome<E>) -> bool {
    inner matches Ok((value, _)) ==> call_ensures(f, (value,), transformed(f, value))
}

/// A transform is pure when it accepts every value and returns one value for
/// each.
pub open spec fn pure<E, F: Fn(Value<E>) -> Value<E>>(f: F) -> bool {
    &&& forall|value: Value<E>| call_requires(f, (value,))
    &&& forall|value: Value<E>, a: Value<E>, b: Value<E>|
        call_ensures(f, (value,), a) && call_ensures(f, (value,), b) ==> a == b
}

/// A literal matches where the element at `start` equals `expected`, and
/// consumes that element. Anywhere else, also behind the end of the input, it
/// fails at `start` with full similarity.
pub open spec fn literal_outcome<E: Element>(expected: E, input: Seq<E>, start: nat) -> Outcome<E> {
    if start < input.len() && expected.same(&input[start as int]) {
        Ok((Value::Element(expected), start + 1))
    } else {
        Err(ErrorModel::Single(FULL_SIMILARITY as nat, start))
    }
}

/// A mapped parser transforms the output and leaves offset and failure as
/// they are.
pub open spec fn map_outcome<E, F: Fn(Value<E>) -> Value<E>>(f: F, inner: Outcome<E>) -> Outcome<
    E,
> {
    match inner {
        Ok((value, end)) => Ok((transformed(f, value), end)),
        Err(error) => Err(error),
    }
}

/// A discarding parser keeps the offset and drops the output.
pub open spec fn discard_outcome<E>(inner: Outcome<E>) -> Outcome<E> {
    match inner {
        Ok((_, end)) => Ok((Value::Unit, end)),
        Err(error) => Err(error),
    }
}

/// A choice returns what its first branch returns where that succeeds, else
/// what the second returns where that succeeds, else both failures as
/// alternatives. Both branches start at the same offset.
pub open spec fn alternative_outcome<E>(first: Outcome<E>, second: Outcome<E>) -> Outcome<E> {
    match first {
        Ok(_) => first,
        Err(first_error) => match second {
            Ok(_) => second,
            Err(second_error) => Err(first_error.combine_as_alternatives(second_error)),
        },
    }
}

/// Where the second part of a sequence starts: behind what the first part
/// consumed, or, where the first part failed, behind the span of its failure.
pub open spec fn sequence_resume<E>(first: Outcome<E>) -> nat {
    match first {
        Ok((_, end)) => end,
        Err(error) => error.end(),
    }
}

/// A sequence that started at `start` succeeds where both parts succeed, with
/// the pair of their outputs. Where only the second part fails, the failure
/// records first what the first part consumed. Where the first part fails, the
/// sequence fails whatever the second part does behind the failure; what the
/// second part consumed or how it failed is added to the failure.
pub open spec fn sequence_outcome<E>(start: nat, first: Outcome<E>, second: Outcome<E>) -> Outcome<
    E,
> {
    match first {
        Ok((first_value, first_end)) => match second {
            Ok((second_value, end)) => Ok(
                (Value::Pair(Box::new(first_value), Box::new(second_value)), end),
            ),
            Err(error) => Err(ErrorModel::Succeed(start, first_end).combine_sequentially(error)),
        },
        Err(first_error) => match second {
            Ok((_, end)) => Err(
                first_error.combine_sequentially(ErrorModel::Succeed(first_error.end(), end)),
            ),
            Err(error) => Err(first_error.combine_sequentially(error)),
        },
    }
}

/// The output of the first part of a sequence.
pub open spec fn left_of<E>(value: Value<E>) -> Value<E> {
    match value {
        Value::Pair(left, _) => *left,
        other => other,
    }
}

/// The output of the second part of a sequence.
pub open spec fn right_of<E>(value: Value<E>) -> Value<E> {
    match value {
        Value::Pair(_, right) => *right,
        other => other,
    }
}

/// A sequence that keeps only the output of its first part.
pub open spec fn keep_left_outcome<E>(pair: Outcome<E>) -> Outcome<E> {
    match pair {
        Ok((value, end)) => Ok((left_of(value), end)),
        Err(error) => Err(error),
    }
}

/// A sequence that keeps only the output of its second part.
pub open spec fn keep_right_outcome<E>(pair: Outcome<E>) -> Outcome<E> {
    match pair {
        Ok((value, end)) => Ok((right_of(value), end)),
        Err(error) => Err(error),
    }
}

/// A sequence whose first part succeeds and whose second part fails reports a
/// failure that starts where the sequence started; one whose parts both succeed
/// ends where the second part ends, having consumed what the two consumed.
pub proof fn lemma_sequence_starts_at_start<E>(
    start: nat,
    first_value: Value<E>,
    first_end: nat,
    second: Outcome<E>,
)
    ensures
        second matches Err(error) ==> (sequence_outcome(start, Ok((first_value, first_end)), second)
            matches Err(combined) && combined.start() == start && combined
            == ErrorModel::Succeed(start, first_end).combine_sequentially(error)),
        second matches Ok((second_value, end)) ==> (sequence_outcome(
            start,
            Ok((first_value, first_end)),
            second,
        ) matches Ok((_, combined_end)) && combined_end - start == (first_end - start) + (end
            - first_end)),
{
    if let Err(error) = second {
        let prefix = ErrorModel::Succeed(start, first_end);
        let items = prefix.sequence_parts() + error.sequence_parts();
        assert(ErrorModel::Add(items).start() == items[0].start());
    }
}

/// A sequence whose first part fails does fail, whatever its second part does
/// behind the failure, and its failure begins with the failure of the first
/// part.
pub proof fn lemma_sequence_fails_with_first<E>(
    start: nat,
    first_error: ErrorModel,
    second: Outcome<E>,
)
    ensures
        sequence_outcome(start, Err(first_error), second) matches Err(combined)
            && combined.sequence_parts().take(first_error.sequence_parts().len() as int)
            == first_error.sequence_parts(),
{
    let tail = match second {
        Ok((_, end)) => ErrorModel::Succeed(first_error.end(), end),
        Err(error) => error,
    };
    let combined = first_error.combine_sequentially(tail);
    assert(combined.sequence_parts().take(first_error.sequence_parts().len() as int)
        =~= first_error.sequence_parts());
}

/// A choice succeeds exactly where one of its branches succeeds, and then with
/// the result of the first branch that does.
pub proof fn lemma_alternative_left_biased<E>(first: Outcome<E>, second: Outcome<E>)
    ensures
        alternative_outcome(first, second) is Ok <==> first is Ok || second is Ok,
        first is Ok ==> alternative_outcome(first, second) == first,
        first is Err && second is Ok ==> alternative_outcome(first, second) == second,
{
}

} // verus!
