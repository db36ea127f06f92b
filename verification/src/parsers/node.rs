//! The nodes of a combinator tree, and what a tree of them parses.

use super::model::{
    lemma_combine_as_alternatives_flat, lemma_combine_as_alternatives_well_formed,
    lemma_combine_sequentially_flat, lemma_combine_sequentially_well_formed, ErrorModel,
};
use super::outcome::{
    alternative_outcome, answered, discard_outcome, keep_left_outcome, keep_right_outcome,
    literal_outcome, map_outcome, pure, sequence_outcome, sequence_resume, Outcome, Value,
};
use super::sequence::Element;
use vstd::prelude::*;

verus! {

/// The handle of a combinator: the place of its node in the context that made
/// it. A handle means nothing in another context.
#[derive(Clone, Copy, Debug, PartialEq, Eq, Structural)]
pub struct Parser {
    pub index: usize,
}

/// The handle of a matcher: a parser that is run for what it consumes and not
/// for its output. `Parser::not` makes the matchers, and theirs is
/// `Value::Unit`.
#[derive(Clone, Copy, Debug, PartialEq, Eq, Structural)]
pub struct Matcher(pub Parser);

/// Matches one element equal to the given one, and puts out a copy of the given
/// one.
#[derive(Debug)]
pub struct Literal<E>(pub E);

/// Runs a parser and transforms its output.
pub struct Mapped<F>(pub Parser, pub F);

/// Runs a parser and drops its output.
#[derive(Clone, Copy, Debug, PartialEq, Eq, Structural)]
pub struct Discard(pub Parser);

/// A choice between two parsers; the first one that succeeds wins.
#[derive(Clone, Copy, Debug, PartialEq, Eq, Structural)]
pub struct Or(pub Parser, pub Parser);

/// Two parsers in a row; the output is the pair of their outputs.
#[derive(Clone, Copy, Debug, PartialEq, Eq, Structural)]
pub struct AddPP(pub Parser, pub Parser);

/// Two parsers in a row; the output is that of the first.
#[derive(Clone, Copy, Debug, PartialEq, Eq, Structural)]
pub struct AddPM(pub AddPP);

/// Two parsers in a row; the output is that of the second.
#[derive(Clone, Copy, Debug, PartialEq, Eq, Structural)]
pub struct AddMP(pub AddPP);

/// A node of a combinator tree. Nodes refer to their parts by handle.
pub enum Node<E, F> {
    /// Matches one element.
    Literal(Literal<E>),
    /// Transforms the output of a parser.
    Mapped(Mapped<F>),
    /// Drops the output of a parser.
    Discard(Discard),
    /// A choice.
    Or(Or),
    /// A sequence that keeps both outputs.
    AddPP(AddPP),
    /// A sequence that keeps the first output.
    AddPM(AddPM),
    /// A sequence that keeps the second output.
    AddMP(AddMP),
}

/// Whether the parts of `node` stand before place `index`.
pub open spec fn parts_before<E, F>(node: Node<E, F>, index: nat) -> bool {
    match node {
        Node::Literal(_) => true,
        Node::Mapped(Mapped(inner, _)) => inner.index < index,
        Node::Discard(Discard(inner)) => inner.index < index,
        Node::Or(Or(first, second)) => first.index < index && second.index < index,
        Node::AddPP(AddPP(first, second)) => first.index < index && second.index < index,
        Node::AddPM(AddPM(AddPP(first, second))) => first.index < index && second.index < index,
        Node::AddMP(AddMP(AddPP(first, second))) => first.index < index && second.index < index,
    }
}

/// Whether `node` may stand at place `index`: its parts stand before it, and
/// its transform is pure.
pub open spec fn admissible<E: Element, F: Fn(Value<E>) -> Value<E>>(
    node: Node<E, F>,
    index: nat,
) -> bool {
    &&& parts_before(node, index)
    &&& node matches Node::Mapped(Mapped(_, f)) ==> pure(f)
}

/// Whether every node of a tree may stand where it stands.
pub open spec fn well_formed<E: Element, F: Fn(Value<E>) -> Value<E>>(
    nodes: Seq<Node<E, F>>,
) -> bool {
    forall|i: int| 0 <= i < nodes.len() ==> admissible(#[trigger] nodes[i], i as nat)
}

/// How far behind its start a parse of the node at `index` can reach at most:
/// where its output ends, or where the span of its failure ends.
pub open spec fn reach<E, F>(nodes: Seq<Node<E, F>>, index: nat) -> nat
    decreases index, 1nat,
{
    if index >= nodes.len() {
        0
    } else {
        match nodes[index as int] {
            Node::Literal(_) => 1,
            Node::Mapped(Mapped(inner, _)) => part_reach(nodes, index, inner),
            Node::Discard(Discard(inner)) => part_reach(nodes, index, inner),
            Node::Or(Or(first, second)) => {
                let a = part_reach(nodes, index, first);
                let b = part_reach(nodes, index, second);
                if a >= b {
                    a
                } else {
                    b
                }
            },
            Node::AddPP(AddPP(first, second)) => part_reach(nodes, index, first) + part_reach(
                nodes,
                index,
                second,
            ),
            Node::AddPM(AddPM(AddPP(first, second))) => part_reach(nodes, index, first)
                + part_reach(nodes, index, second),
            Node::AddMP(AddMP(AddPP(first, second))) => part_reach(nodes, index, first)
                + part_reach(nodes, index, second),
        }
    }
}

/// The reach of a part of the node at `index`; a part that does not stand before
/// the node reaches nowhere.
pub open spec fn part_reach<E, F>(nodes: Seq<Node<E, F>>, index: nat, part: Parser) -> nat
    decreases index, 0nat,
{
    if part.index < index {
        reach(nodes, part.index as nat)
    } else {
        0
    }
}

/// What the node at `index` returns on `input` from `start` on.
pub open spec fn parse_outcome<E: Element, F: Fn(Value<E>) -> Value<E>>(
    nodes: Seq<Node<E, F>>,
    index: nat,
    input: Seq<E>,
    start: nat,
) -> Outcome<E>
    decreases index, 2nat,
{
    if index >= nodes.len() {
        Err(ErrorModel::Or(Seq::empty()))
    } else {
        match nodes[index as int] {
            Node::Literal(Literal(expected)) => literal_outcome(expected, input, start),
            Node::Mapped(Mapped(inner, f)) => map_outcome(
                f,
                part_outcome(nodes, index, inner, input, start),
            ),
            Node::Discard(Discard(inner)) => discard_outcome(
                part_outcome(nodes, index, inner, input, start),
            ),
            Node::Or(Or(first, second)) => alternative_outcome(
                part_outcome(nodes, index, first, input, start),
                part_outcome(nodes, index, second, input, start),
            ),
            Node::AddPP(pair) => pair_outcome(nodes, index, pair, input, start),
            Node::AddPM(AddPM(pair)) => keep_left_outcome(
                pair_outcome(nodes, index, pair, input, start),
            ),
            Node::AddMP(AddMP(pair)) => keep_right_outcome(
                pair_outcome(nodes, index, pair, input, start),
            ),
        }
    }
}

/// What a part of the node at `index` returns.
pub open spec fn part_outcome<E: Element, F: Fn(Value<E>) -> Value<E>>(
    nodes: Seq<Node<E, F>>,
    index: nat,
    part: Parser,
    input: Seq<E>,
    start: nat,
) -> Outcome<E>
    decreases index, 0nat,
{
    if part.index < index {
        parse_outcome(nodes, part.index as nat, input, start)
    } else {
        Err(ErrorModel::Or(Seq::empty()))
    }
}

/// What the two parts of a sequence at `index` return together: the second part
/// starts where `sequence_resume` says.
pub open spec fn pair_outcome<E: Element, F: Fn(Value<E>) -> Value<E>>(
    nodes: Seq<Node<E, F>>,
    index: nat,
    pair: AddPP,
    input: Seq<E>,
    start: nat,
) -> Outcome<E>
    decreases index, 1nat,
{
    let first = part_outcome(nodes, index, pair.0, input, start);
    let second = part_outcome(nodes, index, pair.1, input, sequence_resume(first));
    sequence_outcome(start, first, second)
}

/// What the sequence `pair` returns on `input` from `start` on.
pub open spec fn pair_parse<E: Element, F: Fn(Value<E>) -> Value<E>>(
    nodes: Seq<Node<E, F>>,
    pair: AddPP,
    input: Seq<E>,
    start: nat,
) -> Outcome<E> {
    let first = parse_outcome(nodes, pair.0.index as nat, input, start);
    let second = parse_outcome(nodes, pair.1.index as nat, input, sequence_resume(first));
    sequence_outcome(start, first, second)
}

/// Seen from a node behind both parts of a sequence, the sequence returns what
/// `pair_parse` says.
pub proof fn lemma_pair_outcome<E: Element, F: Fn(Value<E>) -> Value<E>>(
    nodes: Seq<Node<E, F>>,
    index: nat,
    pair: AddPP,
    input: Seq<E>,
    start: nat,
)
    requires
        pair.0.index < index,
        pair.1.index < index,
    ensures
        pair_outcome(nodes, index, pair, input, start) == pair_parse(nodes, pair, input, start),
        pair_answered(nodes, index, pair, input, start) == pair_parse_answered(
            nodes,
            pair,
            input,
            start,
        ),
{
}

/// Whether every transform that a parse of the node at `index` runs did return
/// what `transformed` names for it.
pub open spec fn transforms_answered<E: Element, F: Fn(Value<E>) -> Value<E>>(
    nodes: Seq<Node<E, F>>,
    index: nat,
    input: Seq<E>,
    start: nat,
) -> bool
    decreases index, 2nat,
{
    if index >= nodes.len() {
        true
    } else {
        match nodes[index as int] {
            Node::Literal(_) => true,
            Node::Mapped(Mapped(inner, f)) => {
                &&& part_answered(nodes, index, inner, input, start)
                &&& answered(f, part_outcome(nodes, index, inner, input, start))
            },
            Node::Discard(Discard(inner)) => part_answered(nodes, index, inner, input, start),
            Node::Or(Or(first, second)) => {
                &&& part_answered(nodes, index, first, input, start)
                &&& part_outcome(nodes, index, first, input, start) is Err ==> part_answered(
                    nodes,
                    index,
                    second,
                    input,
                    start,
                )
            },
            Node::AddPP(pair) => pair_answered(nodes, index, pair, input, start),
            Node::AddPM(AddPM(pair)) => pair_answered(nodes, index, pair, input, start),
            Node::AddMP(AddMP(pair)) => pair_answered(nodes, index, pair, input, start),
        }
    }
}

/// Whether the transforms of a part of the node at `index` answered.
pub open spec fn part_answered<E: Element, F: Fn(Value<E>) -> Value<E>>(
    nodes: Seq<Node<E, F>>,
    index: nat,
    part: Parser,
    input: Seq<E>,
    start: nat,
) -> bool
    decreases index, 0nat,
{
    part.index < index ==> transforms_answered(nodes, part.index as nat, input, start)
}

/// Whether the transforms of the two parts of a sequence at `index` answered.
pub open spec fn pair_answered<E: Element, F: Fn(Value<E>) -> Value<E>>(
    nodes: Seq<Node<E, F>>,
    index: nat,
    pair: AddPP,
    input: Seq<E>,
    start: nat,
) -> bool
    decreases index, 1nat,
{
    &&& part_answered(nodes, index, pair.0, input, start)
    &&& part_answered(
        nodes,
        index,
        pair.1,
        input,
        sequence_resume(part_outcome(nodes, index, pair.0, input, start)),
    )
}

/// Whether the transforms of the two parts of the sequence `pair` answered.
pub open spec fn pair_parse_answered<E: Element, F: Fn(Value<E>) -> Value<E>>(
    nodes: Seq<Node<E, F>>,
    pair: AddPP,
    input: Seq<E>,
    start: nat,
) -> bool {
    &&& transforms_answered(nodes, pair.0.index as nat, input, start)
    &&& transforms_answered(
        nodes,
        pair.1.index as nat,
        input,
        sequence_resume(parse_outcome(nodes, pair.0.index as nat, input, start)),
    )
}

/// Whether an outcome of a parse from `start` keeps within `bound` positions: an
/// output consumes at least one position and at most `bound`; a failure is well
/// formed and flat, and its span is not empty and lies within `bound` positions
/// from `start`.
pub open spec fn within<E>(outcome: Outcome<E>, start: nat, bound: nat) -> bool {
    match outcome {
        Ok((_, end)) => start < end <= start + bound,
        Err(error) => {
            &&& error.well_formed()
            &&& error.flat()
            &&& start <= error.start() < error.end() <= start + bound
        },
    }
}

/// Every parse of a well-formed tree keeps within the reach of its node, and an
/// output ends within the input.
pub proof fn lemma_parse_within<E: Element, F: Fn(Value<E>) -> Value<E>>(
    nodes: Seq<Node<E, F>>,
    index: nat,
    input: Seq<E>,
    start: nat,
)
    requires
        well_formed(nodes),
        index < nodes.len(),
        start + reach(nodes, index) <= usize::MAX,
    ensures
        within(parse_outcome(nodes, index, input, start), start, reach(nodes, index)),
        parse_outcome(nodes, index, input, start) matches Ok((_, end)) ==> end <= input.len(),
    decreases index, 1nat,
{
    let node = nodes[index as int];
    match node {
        Node::Literal(_) => {},
        Node::Mapped(Mapped(inner, _)) => {
            lemma_parse_within(nodes, inner.index as nat, input, start);
        },
        Node::Discard(Discard(inner)) => {
            lemma_parse_within(nodes, inner.index as nat, input, start);
        },
        Node::Or(Or(first, second)) => {
            lemma_parse_within(nodes, first.index as nat, input, start);
            lemma_parse_within(nodes, second.index as nat, input, start);
            let a = parse_outcome(nodes, first.index as nat, input, start);
            let b = parse_outcome(nodes, second.index as nat, input, start);
            if let Err(first_error) = a {
                if let Err(second_error) = b {
                    lemma_combine_as_alternatives_well_formed(first_error, second_error);
                    lemma_combine_as_alternatives_flat(first_error, second_error);
                }
            }
        },
        Node::AddPP(pair) => {
            lemma_pair_within(nodes, index, pair, input, start);
        },
        Node::AddPM(AddPM(pair)) => {
            lemma_pair_within(nodes, index, pair, input, start);
        },
        Node::AddMP(AddMP(pair)) => {
            lemma_pair_within(nodes, index, pair, input, start);
        },
    }
}

/// A sequence keeps within the reach of its two parts together.
pub proof fn lemma_pair_within<E: Element, F: Fn(Value<E>) -> Value<E>>(
    nodes: Seq<Node<E, F>>,
    index: nat,
    pair: AddPP,
    input: Seq<E>,
    start: nat,
)
    requires
        well_formed(nodes),
        index <= nodes.len(),
        pair.0.index < index,
        pair.1.index < index,
        start + reach(nodes, pair.0.index as nat) + reach(nodes, pair.1.index as nat)
            <= usize::MAX,
    ensures
        within(
            pair_outcome(nodes, index, pair, input, start),
            start,
            reach(nodes, pair.0.index as nat) + reach(nodes, pair.1.index as nat),
        ),
        pair_outcome(nodes, index, pair, input, start) matches Ok((_, end)) ==> end <= input.len(),
    decreases index, 0nat,
{
    lemma_parse_within(nodes, pair.0.index as nat, input, start);
    let first = parse_outcome(nodes, pair.0.index as nat, input, start);
    let resume = sequence_resume(first);
    lemma_parse_within(nodes, pair.1.index as nat, input, resume);
    let second = parse_outcome(nodes, pair.1.index as nat, input, resume);
    match first {
        Ok((_, first_end)) => {
            if let Err(error) = second {
                let prefix = ErrorModel::Succeed(start, first_end);
                lemma_combine_sequentially_well_formed(prefix, error);
                lemma_combine_sequentially_flat(prefix, error);
            }
        },
        Err(first_error) => {
            match second {
                Ok((_, end)) => {
                    let suffix = ErrorModel::Succeed(first_error.end(), end);
                    lemma_combine_sequentially_well_formed(first_error, suffix);
                    lemma_combine_sequentially_flat(first_error, suffix);
                },
                Err(error) => {
                    lemma_combine_sequentially_well_formed(first_error, error);
                    lemma_combine_sequentially_flat(first_error, error);
                },
            }
        },
    }
}

} // verus!
