//! The combinator core: a context that owns the nodes of combinator trees, the
//! handles it issues for them, and the parsers that run them.
//!
//! A combinator is made in a context and named by a handle. Combining two
//! handles makes a new node that refers to the two, and a new handle. Running a
//! handle on an input walks the tree below its node.

pub mod error;
pub mod model;
pub mod node;
pub mod outcome;
pub mod sequence;

pub use error::Error;
pub use model::{ErrorModel, FULL_SIMILARITY};
pub use node::{AddMP, AddPM, AddPP, Discard, Literal, Mapped, Matcher, Node, Or, Parser};
pub use outcome::{Outcome, Value};
pub use sequence::{Element, SequenceView};

use crate::pool::Pool;
use node::{
    admissible, lemma_pair_outcome, lemma_parse_within, pair_parse, pair_parse_answered,
    parse_outcome, parts_before, reach, transforms_answered, well_formed,
};
use outcome::{
    alternative_outcome, answered, discard_outcome, keep_left_outcome, keep_right_outcome,
    literal_outcome, map_outcome, pure, transformed,
};
use vstd::prelude::*;

verus! {

/// What a parser returns: the output and the offset behind what it consumed, or
/// the failure.
pub type ParserResult<O> = Result<(O, usize), Error>;

/// The mathematical value of a parser's result.
pub open spec fn outcome_of<E>(result: ParserResult<Value<E>>) -> Outcome<E> {
    match result {
        Ok((value, end)) => Ok((value, end as nat)),
        Err(error) => Err(error@),
    }
}

/// The later of two places.
pub open spec fn later(a: Parser, b: Parser) -> nat {
    if a.index >= b.index {
        a.index as nat
    } else {
        b.index as nat
    }
}

/// Owns the nodes of the combinators made in it. A node is never changed or
/// removed, so a handle stays good for as long as the context lives.
#[verifier::reject_recursive_types(E)]
pub struct ParserContext<E: Element, F: Fn(Value<E>) -> Value<E>> {
    pool: Pool<Node<E, F>>,
}

impl<E: Element, F: Fn(Value<E>) -> Value<E>> View for ParserContext<E, F> {
    type V = Seq<Node<E, F>>;

    /// The nodes, each at the place that its handle names.
    closed spec fn view(&self) -> Seq<Node<E, F>> {
        Seq::new(self.pool@.len(), |i: int| self.pool@[i]->0)
    }
}

impl<E: Element, F: Fn(Value<E>) -> Value<E>> Default for ParserContext<E, F> {
    /// A context without nodes.
    fn default() -> (context: Self)
        ensures
            context.well_formed(),
            context@ == Seq::<Node<E, F>>::empty(),
    {
        ParserContext::new()
    }
}

impl<E: Element, F: Fn(Value<E>) -> Value<E>> ParserContext<E, F> {
    /// The context holds each of its nodes, and each may stand where it stands.
    /// `new` makes a well-formed context, and every function that changes a
    /// context keeps it well formed.
    pub closed spec fn well_formed(&self) -> bool {
        &&& forall|i: int| 0 <= i < self.pool@.len() ==> (#[trigger] self.pool@[i]) is Some
        &&& well_formed(self@)
    }

    /// In a well-formed context every node may stand where it stands.
    pub proof fn lemma_well_formed(&self)
        requires
            self.well_formed(),
        ensures
            well_formed(self@),
    {
    }

    /// A context without nodes.
    pub fn new() -> (context: Self)
        ensures
            context.well_formed(),
            context@ == Seq::<Node<E, F>>::empty(),
    {
        let context = ParserContext { pool: Pool::new() };
        context
    }

    /// The number of nodes: the place that the next node gets.
    pub fn len(&self) -> (n: usize)
        ensures
            n == self@.len(),
    {
        self.pool.issued()
    }

    /// Whether `parser` names a node of this context.
    pub fn contains(&self, parser: Parser) -> (found: bool)
        ensures
            found == (parser.index < self@.len()),
    {
        parser.index < self.pool.issued()
    }

    /// The node that `parser` names.
    pub fn node(&self, parser: Parser) -> (node: &Node<E, F>)
        requires
            self.well_formed(),
            parser.index < self@.len(),
        ensures
            *node == self@[parser.index as int],
    {
        self.pool.get(parser.index).unwrap()
    }

    /// Whether the parts of `node` are nodes of this context, so that the node
    /// can be taken into it.
    pub fn admits(&self, node: &Node<E, F>) -> (found: bool)
        ensures
            found == parts_before(*node, self@.len()),
    {
        let n = self.len();
        match node {
            Node::Literal(_) => true,
            Node::Mapped(mapped) => mapped.0.index < n,
            Node::Discard(discard) => discard.0.index < n,
            Node::Or(or) => or.0.index < n && or.1.index < n,
            Node::AddPP(pair) => pair.0.index < n && pair.1.index < n,
            Node::AddPM(pair) => pair.0.0.index < n && pair.0.1.index < n,
            Node::AddMP(pair) => pair.0.0.index < n && pair.0.1.index < n,
        }
    }

    /// Takes `node` into the context and returns its handle.
    pub fn new_parser(&mut self, node: Node<E, F>) -> (parser: Parser)
        requires
            old(self).well_formed(),
            admissible(node, old(self)@.len()),
        ensures
            final(self).well_formed(),
            parser.index == old(self)@.len(),
            final(self)@ == old(self)@.push(node),
    {
        let ghost before = self@;
        let index = self.pool.add(node);
        assert(self@ =~= before.push(node));
        Parser { index }
    }

    /// A parser that matches one element equal to `value`.
    pub fn single(&mut self, value: E) -> (parser: Parser)
        requires
            old(self).well_formed(),
        ensures
            final(self).well_formed(),
            parser.index == old(self)@.len(),
            final(self)@ == old(self)@.push(Node::Literal(Literal(value))),
    {
        self.new_parser(Node::Literal(Literal(value)))
    }

    /// How far behind its start a parse of `parser` can reach at most, or `None`
    /// where that is more than an offset can hold: such a parser cannot be run.
    pub fn reach(&self, parser: Parser) -> (bound: Option<usize>)
        requires
            self.well_formed(),
            parser.index < self@.len(),
        ensures
            bound matches Some(n) ==> n == reach(self@, parser.index as nat),
            bound is None ==> reach(self@, parser.index as nat) > usize::MAX,
    {
        let n = self.len();
        let mut table: Vec<Option<usize>> = Vec::new();
        let mut i: usize = 0;
        while i <= parser.index
            invariant
                self.well_formed(),
                n == self@.len(),
                parser.index < n,
                i <= parser.index + 1,
                table@.len() == i,
                forall|j: int|
                    0 <= j < i ==> {
                        &&& (#[trigger] table@[j]) matches Some(n) ==> n == reach(self@, j as nat)
                        &&& table@[j] is None ==> reach(self@, j as nat) > usize::MAX
                    },
            decreases parser.index + 1 - i,
        {
            proof {
                self.lemma_well_formed();
            }
            let bound = match self.node(Parser { index: i }) {
                Node::Literal(_) => Some(1usize),
                Node::Mapped(mapped) => table[mapped.0.index],
                Node::Discard(discard) => table[discard.0.index],
                Node::Or(or) => longer(table[or.0.index], table[or.1.index]),
                Node::AddPP(pair) => total(table[pair.0.index], table[pair.1.index]),
                Node::AddPM(pair) => total(table[pair.0.0.index], table[pair.0.1.index]),
                Node::AddMP(pair) => total(table[pair.0.0.index], table[pair.0.1.index]),
            };
            table.push(bound);
            i = i + 1;
        }
        table[parser.index]
    }
}

/// The longer of two reaches; `None` stands for one that no offset can hold.
fn longer(a: Option<usize>, b: Option<usize>) -> (bound: Option<usize>)
    ensures
        bound == match (a, b) {
            (Some(x), Some(y)) => Some(
                if x >= y {
                    x
                } else {
                    y
                },
            ),
            _ => None::<usize>,
        },
{
    match (a, b) {
        (Some(x), Some(y)) => if x >= y {
            Some(x)
        } else {
            Some(y)
        },
        _ => None,
    }
}

/// The sum of two reaches; `None` stands for one that no offset can hold.
fn total(a: Option<usize>, b: Option<usize>) -> (bound: Option<usize>)
    ensures
        bound matches Some(n) ==> a matches Some(x) && b matches Some(y) && n == x + y,
        bound is None ==> a is None || b is None || a->0 + b->0 > usize::MAX,
{
    match (a, b) {
        (Some(x), Some(y)) => x.checked_add(y),
        _ => None,
    }
}

impl Parser {
    /// Runs the parser on `input` from `start` on.
    pub fn parse_at<E: Element, F: Fn(Value<E>) -> Value<E>, I: SequenceView<Output = E> + ?Sized>(
        &self,
        context: &ParserContext<E, F>,
        input: &I,
        start: usize,
    ) -> (result: ParserResult<Value<E>>)
        requires
            context.well_formed(),
            self.index < context@.len(),
            start + reach(context@, self.index as nat) <= usize::MAX,
        ensures
            outcome_of(result) == parse_outcome(
                context@,
                self.index as nat,
                input.items(),
                start as nat,
            ),
            transforms_answered(context@, self.index as nat, input.items(), start as nat),
            result matches Ok((_, end)) ==> start < end <= input.items().len(),
            result matches Err(error) ==> error@.well_formed() && error@.flat() && start
                <= error@.start(),
        decreases self.index, 2nat,
    {
        proof {
            context.lemma_well_formed();
            lemma_parse_within(context@, self.index as nat, input.items(), start as nat);
        }
        match context.node(*self) {
            Node::Literal(literal) => literal.parse(context, input, start),
            Node::Mapped(mapped) => mapped.parse(context, input, start),
            Node::Discard(discard) => discard.parse(context, input, start),
            Node::Or(or) => or.parse(context, input, start),
            Node::AddPP(pair) => {
                proof {
                    lemma_pair_outcome(
                        context@,
                        self.index as nat,
                        *pair,
                        input.items(),
                        start as nat,
                    );
                }
                pair.parse(context, input, start)
            },
            Node::AddPM(pair) => {
                proof {
                    lemma_pair_outcome(
                        context@,
                        self.index as nat,
                        pair.0,
                        input.items(),
                        start as nat,
                    );
                }
                pair.parse(context, input, start)
            },
            Node::AddMP(pair) => {
                proof {
                    lemma_pair_outcome(
                        context@,
                        self.index as nat,
                        pair.0,
                        input.items(),
                        start as nat,
                    );
                }
                pair.parse(context, input, start)
            },
        }
    }

    /// Parses `input` from its first element on and returns the output.
    pub fn parse<E: Element, F: Fn(Value<E>) -> Value<E>, I: SequenceView<Output = E> + ?Sized>(
        &self,
        context: &ParserContext<E, F>,
        input: &I,
    ) -> (result: Result<Value<E>, Error>)
        requires
            context.well_formed(),
            self.index < context@.len(),
            reach(context@, self.index as nat) <= usize::MAX,
        ensures
            match parse_outcome(context@, self.index as nat, input.items(), 0) {
                Ok((value, _)) => result == Ok::<Value<E>, Error>(value),
                Err(error) => result matches Err(e) && e@ == error,
            },
            transforms_answered(context@, self.index as nat, input.items(), 0),
            result matches Err(error) ==> error@.well_formed() && error@.flat(),
    {
        match self.parse_at(context, input, 0) {
            Ok((value, _)) => Ok(value),
            Err(error) => Err(error),
        }
    }

    /// Parses `input` like `parse` where this parser can be run in `context`,
    /// and returns `None` where it cannot: where it names no node of the
    /// context, or could reach behind the offsets that the machine has.
    pub fn try_parse<E: Element, F: Fn(Value<E>) -> Value<E>, I: SequenceView<Output = E> + ?Sized>(
        &self,
        context: &ParserContext<E, F>,
        input: &I,
    ) -> (result: Option<Result<Value<E>, Error>>)
        requires
            context.well_formed(),
        ensures
            result is Some <==> self.index < context@.len() && reach(context@, self.index as nat)
                <= usize::MAX,
            result matches Some(parsed) ==> match parse_outcome(
                context@,
                self.index as nat,
                input.items(),
                0,
            ) {
                Ok((value, _)) => parsed == Ok::<Value<E>, Error>(value),
                Err(error) => parsed matches Err(e) && e@ == error,
            },
            result is Some ==> transforms_answered(
                context@,
                self.index as nat,
                input.items(),
                0,
            ),
    {
        if !context.contains(*self) {
            return None;
        }
        match context.reach(*self) {
            Some(_) => Some(self.parse(context, input)),
            None => None,
        }
    }

    /// A parser that runs this one and transforms its output with `f`.
    pub fn map<E: Element, F: Fn(Value<E>) -> Value<E>>(
        self,
        context: &mut ParserContext<E, F>,
        f: F,
    ) -> (parser: Parser)
        requires
            old(context).well_formed(),
            self.index < old(context)@.len(),
            pure(f),
        ensures
            final(context).well_formed(),
            parser.index == old(context)@.len(),
            final(context)@ == old(context)@.push(Node::Mapped(Mapped(self, f))),
    {
        context.new_parser(Node::Mapped(Mapped(self, f)))
    }

    /// A matcher that runs this parser and drops its output. It succeeds where
    /// this parser succeeds and consumes what this parser consumes: it looks for
    /// the same thing and only forgets what it found. It is no test that this
    /// parser fails.
    pub fn not<E: Element, F: Fn(Value<E>) -> Value<E>>(
        self,
        context: &mut ParserContext<E, F>,
    ) -> (matcher: Matcher)
        requires
            old(context).well_formed(),
            self.index < old(context)@.len(),
        ensures
            final(context).well_formed(),
            matcher.0.index == old(context)@.len(),
            final(context)@ == old(context)@.push(Node::Discard(Discard(self))),
    {
        Matcher(context.new_parser(Node::Discard(Discard(self))))
    }

    /// The choice between this parser and `rhs`; this parser is tried first.
    pub fn bitor<E: Element, F: Fn(Value<E>) -> Value<E>>(
        self,
        context: &mut ParserContext<E, F>,
        rhs: Parser,
    ) -> (parser: Parser)
        requires
            old(context).well_formed(),
            self.index < old(context)@.len(),
            rhs.index < old(context)@.len(),
        ensures
            final(context).well_formed(),
            parser.index == old(context)@.len(),
            final(context)@ == old(context)@.push(Node::Or(Or(self, rhs))),
    {
        context.new_parser(Node::Or(Or(self, rhs)))
    }

    /// This parser followed by `rhs`; the output is the pair of both outputs.
    pub fn add<E: Element, F: Fn(Value<E>) -> Value<E>>(
        self,
        context: &mut ParserContext<E, F>,
        rhs: Parser,
    ) -> (parser: Parser)
        requires
            old(context).well_formed(),
            self.index < old(context)@.len(),
            rhs.index < old(context)@.len(),
        ensures
            final(context).well_formed(),
            parser.index == old(context)@.len(),
            final(context)@ == old(context)@.push(Node::AddPP(AddPP(self, rhs))),
    {
        context.new_parser(Node::AddPP(AddPP(self, rhs)))
    }

    /// This parser followed by the matcher `rhs`; the output is that of this
    /// parser.
    pub fn add_matcher<E: Element, F: Fn(Value<E>) -> Value<E>>(
        self,
        context: &mut ParserContext<E, F>,
        rhs: Matcher,
    ) -> (parser: Parser)
        requires
            old(context).well_formed(),
            self.index < old(context)@.len(),
            rhs.0.index < old(context)@.len(),
        ensures
            final(context).well_formed(),
            parser.index == old(context)@.len(),
            final(context)@ == old(context)@.push(Node::AddPM(AddPM(AddPP(self, rhs.0)))),
    {
        context.new_parser(Node::AddPM(AddPM(AddPP(self, rhs.0))))
    }

    /// The handle itself. A handle says nothing of the kind of its node, so the
    /// handles of any parsers of a context can stand in one list.
    pub fn into_dyn(self) -> (parser: Parser)
        ensures
            parser == self,
    {
        self
    }
}

impl Matcher {
    /// This matcher followed by `rhs`; the output is that of `rhs`.
    pub fn add<E: Element, F: Fn(Value<E>) -> Value<E>>(
        self,
        context: &mut ParserContext<E, F>,
        rhs: Parser,
    ) -> (parser: Parser)
        requires
            old(context).well_formed(),
            self.0.index < old(context)@.len(),
            rhs.index < old(context)@.len(),
        ensures
            final(context).well_formed(),
            parser.index == old(context)@.len(),
            final(context)@ == old(context)@.push(Node::AddMP(AddMP(AddPP(self.0, rhs)))),
    {
        context.new_parser(Node::AddMP(AddMP(AddPP(self.0, rhs))))
    }
}

impl std::ops::Deref for Matcher {
    type Target = Parser;

    /// The matcher as a parser.
    fn deref(&self) -> (parser: &Parser)
        ensures
            *parser == self.0,
    {
        &self.0
    }
}

/// The parsing contract: what can be run on an input from an offset on, and
/// returns an output with the offset behind what it consumed, or a failure. What
/// it returns depends on the input and the offset alone.
pub trait RawParser<E: Element, F: Fn(Value<E>) -> Value<E>> {
    /// Whether the parser can run from `start`: its parts are nodes of the
    /// tree, its transform is pure, and no parse from `start` reaches behind
    /// the offsets that the machine has. Where an implementation does not say
    /// otherwise, it can run from anywhere.
    open spec fn runs(&self, nodes: Seq<Node<E, F>>, start: nat) -> bool {
        true
    }

    /// What the parser returns on `input` from `start` on. Where an
    /// implementation does not say, nothing is known of it.
    open spec fn outcome(&self, nodes: Seq<Node<E, F>>, input: Seq<E>, start: nat) -> Outcome<
        E,
    > {
        arbitrary()
    }

    /// Whether every transform that the parse runs did return what
    /// `transformed` names for it. A parser that runs no transform has nothing
    /// to say here.
    open spec fn answered(&self, nodes: Seq<Node<E, F>>, input: Seq<E>, start: nat) -> bool {
        true
    }

    /// Runs the parser on `input` from `start` on.
    fn parse<I: SequenceView<Output = E> + ?Sized>(
        &self,
        context: &ParserContext<E, F>,
        input: &I,
        start: usize,
    ) -> (result: ParserResult<Value<E>>)
        requires
            context.well_formed(),
            self.runs(context@, start as nat),
        ensures
            outcome_of(result) == self.outcome(context@, input.items(), start as nat),
            self.answered(context@, input.items(), start as nat),
    ;
}

impl<E: Element, F: Fn(Value<E>) -> Value<E>> RawParser<E, F> for Literal<E> {
    open spec fn runs(&self, nodes: Seq<Node<E, F>>, start: nat) -> bool {
        start < usize::MAX
    }

    open spec fn outcome(&self, nodes: Seq<Node<E, F>>, input: Seq<E>, start: nat) -> Outcome<E> {
        literal_outcome(self.0, input, start)
    }

    /// Compares the element at `start`, if there is one, with the expected
    /// one.
    fn parse<I: SequenceView<Output = E> + ?Sized>(
        &self,
        context: &ParserContext<E, F>,
        input: &I,
        start: usize,
    ) -> (result: ParserResult<Value<E>>) {
        if start < input.len() && self.0.matches(input.get(start)) {
            Ok((Value::Element(self.0.duplicate()), start + 1))
        } else {
            Err(Error::Single(FULL_SIMILARITY, start))
        }
    }
}

impl<E: Element, F: Fn(Value<E>) -> Value<E>> RawParser<E, F> for Mapped<F> {
    open spec fn runs(&self, nodes: Seq<Node<E, F>>, start: nat) -> bool {
        &&& self.0.index < nodes.len()
        &&& start + reach(nodes, self.0.index as nat) <= usize::MAX
        &&& pure(self.1)
    }

    open spec fn outcome(&self, nodes: Seq<Node<E, F>>, input: Seq<E>, start: nat) -> Outcome<E> {
        map_outcome(self.1, parse_outcome(nodes, self.0.index as nat, input, start))
    }

    open spec fn answered(&self, nodes: Seq<Node<E, F>>, input: Seq<E>, start: nat) -> bool {
        &&& transforms_answered(nodes, self.0.index as nat, input, start)
        &&& answered(self.1, parse_outcome(nodes, self.0.index as nat, input, start))
    }

    /// Runs the inner parser and transforms its output.
    fn parse<I: SequenceView<Output = E> + ?Sized>(
        &self,
        context: &ParserContext<E, F>,
        input: &I,
        start: usize,
    ) -> (result: ParserResult<Value<E>>)
        decreases self.0.index + 1, 0nat,
    {
        match self.0.parse_at(context, input, start) {
            Ok((value, end)) => {
                let output = (self.1)(value);
                Ok((output, end))
            },
            Err(error) => Err(error),
        }
    }
}

impl<E: Element, F: Fn(Value<E>) -> Value<E>> RawParser<E, F> for Discard {
    open spec fn runs(&self, nodes: Seq<Node<E, F>>, start: nat) -> bool {
        &&& self.0.index < nodes.len()
        &&& start + reach(nodes, self.0.index as nat) <= usize::MAX
    }

    open spec fn outcome(&self, nodes: Seq<Node<E, F>>, input: Seq<E>, start: nat) -> Outcome<E> {
        discard_outcome(parse_outcome(nodes, self.0.index as nat, input, start))
    }

    open spec fn answered(&self, nodes: Seq<Node<E, F>>, input: Seq<E>, start: nat) -> bool {
        transforms_answered(nodes, self.0.index as nat, input, start)
    }

    /// Runs the inner parser and drops its output.
    fn parse<I: SequenceView<Output = E> + ?Sized>(
        &self,
        context: &ParserContext<E, F>,
        input: &I,
        start: usize,
    ) -> (result: ParserResult<Value<E>>)
        decreases self.0.index + 1, 0nat,
    {
        match self.0.parse_at(context, input, start) {
            Ok((_, end)) => Ok((Value::Unit, end)),
            Err(error) => Err(error),
        }
    }
}

impl<E: Element, F: Fn(Value<E>) -> Value<E>> RawParser<E, F> for Or {
    open spec fn runs(&self, nodes: Seq<Node<E, F>>, start: nat) -> bool {
        &&& self.0.index < nodes.len()
        &&& self.1.index < nodes.len()
        &&& start + reach(nodes, self.0.index as nat) <= usize::MAX
        &&& start + reach(nodes, self.1.index as nat) <= usize::MAX
    }

    open spec fn outcome(&self, nodes: Seq<Node<E, F>>, input: Seq<E>, start: nat) -> Outcome<E> {
        alternative_outcome(
            parse_outcome(nodes, self.0.index as nat, input, start),
            parse_outcome(nodes, self.1.index as nat, input, start),
        )
    }

    open spec fn answered(&self, nodes: Seq<Node<E, F>>, input: Seq<E>, start: nat) -> bool {
        &&& transforms_answered(nodes, self.0.index as nat, input, start)
        &&& parse_outcome(nodes, self.0.index as nat, input, start) is Err ==> transforms_answered(
            nodes,
            self.1.index as nat,
            input,
            start,
        )
    }

    /// Tries the first parser, and the second from the same offset where the
    /// first fails.
    fn parse<I: SequenceView<Output = E> + ?Sized>(
        &self,
        context: &ParserContext<E, F>,
        input: &I,
        start: usize,
    ) -> (result: ParserResult<Value<E>>)
        decreases later(self.0, self.1) + 1, 0nat,
    {
        match self.0.parse_at(context, input, start) {
            Ok(output) => Ok(output),
            Err(first_error) => match self.1.parse_at(context, input, start) {
                Ok(output) => Ok(output),
                Err(second_error) => Err(first_error | second_error),
            },
        }
    }
}

impl<E: Element, F: Fn(Value<E>) -> Value<E>> RawParser<E, F> for AddPP {
    open spec fn runs(&self, nodes: Seq<Node<E, F>>, start: nat) -> bool {
        &&& self.0.index < nodes.len()
        &&& self.1.index < nodes.len()
        &&& start + reach(nodes, self.0.index as nat) + reach(nodes, self.1.index as nat)
            <= usize::MAX
    }

    open spec fn outcome(&self, nodes: Seq<Node<E, F>>, input: Seq<E>, start: nat) -> Outcome<E> {
        pair_parse(nodes, *self, input, start)
    }

    open spec fn answered(&self, nodes: Seq<Node<E, F>>, input: Seq<E>, start: nat) -> bool {
        pair_parse_answered(nodes, *self, input, start)
    }

    /// Runs the first parser and then the second. Where the first fails, the
    /// second still runs, behind the span of the failure, to tell in the failure
    /// how the rest would have gone.
    fn parse<I: SequenceView<Output = E> + ?Sized>(
        &self,
        context: &ParserContext<E, F>,
        input: &I,
        start: usize,
    ) -> (result: ParserResult<Value<E>>)
        decreases later(self.0, self.1) + 1, 0nat,
    {
        proof {
            context.lemma_well_formed();
            lemma_parse_within(context@, self.0.index as nat, input.items(), start as nat);
        }
        match self.0.parse_at(context, input, start) {
            Ok((first_value, first_end)) => match self.1.parse_at(context, input, first_end) {
                Ok((second_value, end)) => Ok(
                    (Value::Pair(Box::new(first_value), Box::new(second_value)), end),
                ),
                Err(error) => Err(Error::Succeed(start..first_end) + error),
            },
            Err(first_error) => {
                let resume = first_error.range().end;
                match self.1.parse_at(context, input, resume) {
                    Ok((_, end)) => Err(first_error + Error::Succeed(resume..end)),
                    Err(error) => Err(first_error + error),
                }
            },
        }
    }
}

impl<E: Element, F: Fn(Value<E>) -> Value<E>> RawParser<E, F> for AddPM {
    open spec fn runs(&self, nodes: Seq<Node<E, F>>, start: nat) -> bool {
        &&& self.0.0.index < nodes.len()
        &&& self.0.1.index < nodes.len()
        &&& start + reach(nodes, self.0.0.index as nat) + reach(nodes, self.0.1.index as nat)
            <= usize::MAX
    }

    open spec fn outcome(&self, nodes: Seq<Node<E, F>>, input: Seq<E>, start: nat) -> Outcome<E> {
        keep_left_outcome(pair_parse(nodes, self.0, input, start))
    }

    open spec fn answered(&self, nodes: Seq<Node<E, F>>, input: Seq<E>, start: nat) -> bool {
        pair_parse_answered(nodes, self.0, input, start)
    }

    /// Runs both parsers in a row and keeps the output of the first.
    fn parse<I: SequenceView<Output = E> + ?Sized>(
        &self,
        context: &ParserContext<E, F>,
        input: &I,
        start: usize,
    ) -> (result: ParserResult<Value<E>>)
        decreases later(self.0.0, self.0.1) + 1, 1nat,
    {
        match self.0.parse(context, input, start) {
            Ok((Value::Pair(left, _), end)) => Ok((*left, end)),
            Ok(other) => Ok(other),
            Err(error) => Err(error),
        }
    }
}

impl<E: Element, F: Fn(Value<E>) -> Value<E>> RawParser<E, F> for AddMP {
    open spec fn runs(&self, nodes: Seq<Node<E, F>>, start: nat) -> bool {
        &&& self.0.0.index < nodes.len()
        &&& self.0.1.index < nodes.len()
        &&& start + reach(nodes, self.0.0.index as nat) + reach(nodes, self.0.1.index as nat)
            <= usize::MAX
    }

    open spec fn outcome(&self, nodes: Seq<Node<E, F>>, input: Seq<E>, start: nat) -> Outcome<E> {
        keep_right_outcome(pair_parse(nodes, self.0, input, start))
    }

    open spec fn answered(&self, nodes: Seq<Node<E, F>>, input: Seq<E>, start: nat) -> bool {
        pair_parse_answered(nodes, self.0, input, start)
    }

    /// Runs both parsers in a row and keeps the output of the second.
    fn parse<I: SequenceView<Output = E> + ?Sized>(
        &self,
        context: &ParserContext<E, F>,
        input: &I,
        start: usize,
    ) -> (result: ParserResult<Value<E>>)
        decreases later(self.0.0, self.0.1) + 1, 1nat,
    {
        match self.0.parse(context, input, start) {
            Ok((Value::Pair(_, right), end)) => Ok((*right, end)),
            Ok(other) => Ok(other),
            Err(error) => Err(error),
        }
    }
}

} // verus!
