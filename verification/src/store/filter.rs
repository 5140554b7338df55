//! Types for finding access grants inside AGS content.
//!
//! A [`Filter`] is an immutable boolean expression tree over field/pattern
//! predicates. It is built incrementally with a [`Builder`]: `regex` and
//! `nest` graft a predicate leaf or a finished sub-filter onto the tree and
//! return a [`Connector`], whose only legal next operations are `and`, `or`,
//! or `end`.
//! The alternation of the two types makes two adjacent predicates, or two
//! adjacent operators, impossible to express.

use vstd::prelude::*;

use crate::error::InvalidPattern;
use crate::pattern::{regex_match, regex_ok, Pattern};

verus! {

/// The logical operator of an internal filter node.
pub enum Op {
    And,
    Or,
}

/// Ghost model of a filter expression: a boolean tree whose leaves are
/// field-name/pattern-text predicates and whose internal nodes are AND/OR.
pub enum Tree {
    And { left: Box<Tree>, right: Box<Tree> },
    Or { left: Box<Tree>, right: Box<Tree> },
    Exp { field: Seq<char>, pattern: Seq<char> },
}

/// An internal node with operator `op` and the given children.
pub open spec fn make_node(op: Op, left: Tree, right: Tree) -> Tree {
    match op {
        Op::And => Tree::And { left: Box::new(left), right: Box::new(right) },
        Op::Or => Tree::Or { left: Box::new(left), right: Box::new(right) },
    }
}

/// A record that filters are evaluated against, as a sequence of entries
/// mapping a field name to its (possibly multiple) text values. A lookup
/// takes the first entry with the wanted name.
pub type RecordModel = Seq<(Seq<char>, Seq<Seq<char>>)>;

/// The views of a sequence of strings.
pub open spec fn views_of(values: Seq<String>) -> Seq<Seq<char>> {
    values.map_values(|v: String| v@)
}

/// Whether any of `values` matches `pattern` anywhere.
pub open spec fn matches_any(pattern: Seq<char>, values: Seq<Seq<char>>) -> bool {
    exists|i: int| 0 <= i < values.len() && regex_match(pattern, values[i])
}

/// The values of the first entry of `record` named `field`, if any.
pub open spec fn lookup(record: RecordModel, field: Seq<char>) -> Option<Seq<Seq<char>>>
    decreases record.len(),
{
    if record.len() == 0 {
        None
    } else if record[0].0 == field {
        Some(record[0].1)
    } else {
        lookup(record.drop_first(), field)
    }
}

impl Tree {
    /// What a filter means on a record. A predicate holds when any value of
    /// its field matches the pattern anywhere; a missing field never matches.
    pub open spec fn eval(self, record: RecordModel) -> bool
        decreases self,
    {
        match self {
            Tree::And { left, right } => left.eval(record) && right.eval(record),
            Tree::Or { left, right } => left.eval(record) || right.eval(record),
            Tree::Exp { field, pattern } => match lookup(record, field) {
                Some(values) => matches_any(pattern, values),
                None => false,
            },
        }
    }

    /// The (field, pattern) pairs of the predicates whose pattern text is not
    /// a valid regular expression, in left-to-right order.
    pub open spec fn bad_patterns(self) -> Seq<(Seq<char>, Seq<char>)>
        decreases self,
    {
        match self {
            Tree::And { left, right } => left.bad_patterns() + right.bad_patterns(),
            Tree::Or { left, right } => left.bad_patterns() + right.bad_patterns(),
            Tree::Exp { field, pattern } => if regex_ok(pattern) {
                Seq::empty()
            } else {
                seq![(field, pattern)]
            },
        }
    }
}

/// Represents a node of the tree representation of a filter.
///
/// A leaf keeps the pattern text it was made from beside the compiled
/// pattern; the compilation is absent exactly when the text is not a valid
/// regular expression, in which case the leaf never reaches a finished
/// [`Filter`].
enum Node {
    And { left: Box<Node>, right: Box<Node> },
    Or { left: Box<Node>, right: Box<Node> },
    Exp { field: String, pattern: String, compiled: Option<Pattern> },
}

impl Node {
    /// The ghost tree this node represents.
    spec fn view(self) -> Tree
        decreases self,
    {
        match self {
            Node::And { left, right } => Tree::And {
                left: Box::new(left.view()),
                right: Box::new(right.view()),
            },
            Node::Or { left, right } => Tree::Or {
                left: Box::new(left.view()),
                right: Box::new(right.view()),
            },
            Node::Exp { field, pattern, compiled } => Tree::Exp {
                field: field@,
                pattern: pattern@,
            },
        }
    }

    /// Every leaf's `compiled` field is the compilation of its pattern text:
    /// present exactly when the text compiles, and compiled from that text.
    spec fn wf(self) -> bool
        decreases self,
    {
        match self {
            Node::And { left, right } => left.wf() && right.wf(),
            Node::Or { left, right } => left.wf() && right.wf(),
            Node::Exp { field, pattern, compiled } => {
                &&& compiled is Some <==> regex_ok(pattern@)
                &&& (compiled matches Some(p) ==> p@ == pattern@)
            },
        }
    }
}

/// Filters access grants according to its containing predicates.
/// For building a filter use a [`Builder`] instance.
pub struct Filter {
    root: Node,
}

impl View for Filter {
    type V = Tree;

    closed spec fn view(&self) -> Tree {
        self.root.view()
    }
}

impl Filter {
    /// A finished filter is complete: every leaf carries the pattern compiled
    /// from its text, and every pattern text is a valid regular expression.
    #[verifier::type_invariant]
    spec fn inv(self) -> bool {
        self.root.wf() && self.root.view().bad_patterns().len() == 0
    }
}

/// A record to evaluate filters against: an ordered list of entries mapping
/// a field name to its (possibly multiple) text values.
pub struct Record {
    entries: Vec<(String, Vec<String>)>,
}

impl View for Record {
    type V = RecordModel;

    closed spec fn view(&self) -> RecordModel {
        self.entries@.map_values(|e: (String, Vec<String>)| (e.0@, views_of(e.1@)))
    }
}

impl Record {
    /// Creates a record with no fields.
    pub fn new() -> (r: Record)
        ensures
            r@ == Seq::<(Seq<char>, Seq<Seq<char>>)>::empty(),
    {
        let r = Record { entries: Vec::new() };
        proof {
            assert(r@ =~= Seq::<(Seq<char>, Seq<Seq<char>>)>::empty());
        }
        r
    }

    /// Appends a single-valued field.
    pub fn add_value(&mut self, field: &str, value: &str)
        ensures
            final(self)@ == old(self)@.push((field@, seq![value@])),
    {
        let mut values: Vec<String> = Vec::new();
        values.push(value.to_owned());
        proof {
            assert(views_of(values@) =~= seq![value@]);
        }
        self.add_values(field, values);
    }

    /// Appends a multi-valued field.
    pub fn add_values(&mut self, field: &str, values: Vec<String>)
        ensures
            final(self)@ == old(self)@.push((field@, views_of(values@))),
    {
        let ghost before = self@;
        self.entries.push((field.to_owned(), values));
        proof {
            assert(self@ =~= before.push((field@, views_of(self.entries@.last().1@))));
        }
    }
}

/// Evaluates `filter` against `record`: pure, never fails, and short-circuits
/// an AND whose left side is false and an OR whose left side is true.
pub fn evaluate(filter: &Filter, record: &Record) -> (r: bool)
    ensures
        r == filter@.eval(record@),
{
    proof {
        use_type_invariant(filter);
    }
    eval_node(&filter.root, record)
}

/// Recursive worker for [`evaluate`].
fn eval_node(node: &Node, record: &Record) -> (r: bool)
    requires
        node.wf(),
        node.view().bad_patterns().len() == 0,
    ensures
        r == node.view().eval(record@),
    decreases *node,
{
    match node {
        Node::And { left, right } => {
            if eval_node(left, record) {
                eval_node(right, record)
            } else {
                false
            }
        },
        Node::Or { left, right } => {
            if eval_node(left, record) {
                true
            } else {
                eval_node(right, record)
            }
        },
        Node::Exp { field, pattern, compiled } => {
            match compiled {
                Some(p) => eval_predicate(p, field, record),
                None => {
                    proof {
                        // Under the well-formedness assumptions this leaf's
                        // pattern both compiles and does not: unreachable.
                        assert(false);
                    }
                    false
                },
            }
        },
    }
}

/// Evaluates one predicate leaf: looks the field up and tests whether any of
/// its values matches.
fn eval_predicate(p: &Pattern, field: &String, record: &Record) -> (r: bool)
    ensures
        r == (Tree::Exp { field: field@, pattern: p@ }).eval(record@),
{
    let mut i: usize = 0;
    proof {
        assert(record@.skip(0) =~= record@);
    }
    while i < record.entries.len()
        invariant
            0 <= i <= record.entries.len(),
            lookup(record@, field@) == lookup(record@.skip(i as int), field@),
        decreases record.entries.len() - i,
    {
        let entry = &record.entries[i];
        proof {
            assert(record@.skip(i as int)[0] == record@[i as int]);
            assert(record@.skip(i as int).drop_first() =~= record@.skip(i as int + 1));
        }
        if entry.0.eq(field) {
            proof {
                assert(lookup(record@, field@) == Some(views_of(entry.1@)));
            }
            return any_value_matches(p, &entry.1);
        }
        i = i + 1;
    }
    proof {
        assert(record@.skip(record.entries.len() as int) =~= Seq::<(Seq<char>,
            Seq<Seq<char>>)>::empty());
    }
    false
}

/// Whether any of `values` matches the pattern.
fn any_value_matches(p: &Pattern, values: &Vec<String>) -> (r: bool)
    ensures
        r == matches_any(p@, views_of(values@)),
{
    let mut i: usize = 0;
    while i < values.len()
        invariant
            0 <= i <= values.len(),
            forall|j: int| 0 <= j < i ==> !regex_match(p@, views_of(values@)[j]),
        decreases values.len() - i,
    {
        if p.is_match(values[i].as_str()) {
            proof {
                assert(views_of(values@)[i as int] == values@[i as int]@);
                assert(0 <= i < views_of(values@).len() && regex_match(
                    p@,
                    views_of(values@)[i as int],
                ));
            }
            return true;
        }
        i = i + 1;
    }
    false
}

/// The tree that finishing a build yields: each frame holds a join operator
/// and the completed left part it captured; the frames wrap `last` from the
/// innermost (most recent) outwards, so the chain grows to the right.
pub open spec fn assemble(frames: Seq<(Op, Tree)>, last: Tree) -> Tree
    decreases frames.len(),
{
    if frames.len() == 0 {
        last
    } else {
        assemble(frames.drop_last(), make_node(frames.last().0, frames.last().1, last))
    }
}

/// The bad patterns of the completed left parts held by `frames`, in the
/// order the predicates were supplied.
pub open spec fn frames_bad(frames: Seq<(Op, Tree)>) -> Seq<(Seq<char>, Seq<char>)>
    decreases frames.len(),
{
    if frames.len() == 0 {
        Seq::empty()
    } else {
        frames_bad(frames.drop_last()) + frames.last().1.bad_patterns()
    }
}

/// The bad patterns of an assembled tree are those of the frames' left parts
/// followed by those of the last grafted unit.
proof fn lemma_assemble_bad(frames: Seq<(Op, Tree)>, last: Tree)
    ensures
        assemble(frames, last).bad_patterns() == frames_bad(frames) + last.bad_patterns(),
    decreases frames.len(),
{
    if frames.len() == 0 {
        assert(assemble(frames, last).bad_patterns() =~= frames_bad(frames)
            + last.bad_patterns());
    } else {
        let f = frames.last();
        lemma_assemble_bad(frames.drop_last(), make_node(f.0, f.1, last));
        assert(make_node(f.0, f.1, last).bad_patterns() == f.1.bad_patterns()
            + last.bad_patterns());
        assert(assemble(frames, last).bad_patterns() =~= frames_bad(frames)
            + last.bad_patterns());
    }
}

/// The trees of the frames' nodes.
spec fn frames_view(frames: Seq<(Op, Node)>) -> Seq<(Op, Tree)> {
    frames.map_values(|f: (Op, Node)| (f.0, f.1.view()))
}

/// The views of the recorded (field, pattern) pairs.
spec fn bad_view(bad: Seq<(String, String)>) -> Seq<(Seq<char>, Seq<char>)> {
    bad.map_values(|e: (String, String)| (e.0@, e.1@))
}

/// Every frame's node is well formed.
spec fn frames_wf(frames: Seq<(Op, Node)>) -> bool {
    forall|i: int| 0 <= i < frames.len() ==> (#[trigger] frames[i]).1.wf()
}

/// Builds a filter with the indicated predicates.
///
/// A builder is a construction session: it is consumed by each operation and
/// destroyed by finishing the build. It holds the completed parts of the tree
/// as a stack of frames, each an operator whose right side is still growing,
/// and the patterns that failed to compile so far.
pub struct Builder {
    frames: Vec<(Op, Node)>,
    bad: Vec<(String, String)>,
}

impl Builder {
    /// The operators applied so far, each with the completed tree it
    /// captured as its left side.
    pub closed spec fn frames(&self) -> Seq<(Op, Tree)> {
        frames_view(self.frames@)
    }

    /// The (field, pattern) pairs whose pattern failed to compile, in the
    /// order they were supplied.
    pub closed spec fn bad(&self) -> Seq<(Seq<char>, Seq<char>)> {
        bad_view(self.bad@)
    }

    /// The frames' nodes pair each pattern text with its compilation, and the
    /// recorded bad patterns are exactly the frames' bad patterns.
    #[verifier::type_invariant]
    spec fn inv(self) -> bool {
        &&& frames_wf(self.frames@)
        &&& bad_view(self.bad@) == frames_bad(frames_view(self.frames@))
    }

    /// Creates a builder for building a [`Filter`].
    pub fn new() -> (b: Builder)
        ensures
            b.frames() == Seq::<(Op, Tree)>::empty(),
            b.bad() == Seq::<(Seq<char>, Seq<char>)>::empty(),
    {
        let frames: Vec<(Op, Node)> = Vec::new();
        let bad: Vec<(String, String)> = Vec::new();
        proof {
            assert(frames_view(frames@) =~= Seq::<(Op, Tree)>::empty());
            assert(bad_view(bad@) =~= frames_bad(frames_view(frames@)));
        }
        Builder { frames, bad }
    }

    /// Appends a regular expression predicate at the current position of the
    /// filter that this instance is building.
    ///
    /// `field` is the access grant field's name to match `exp` against.
    /// If `exp` is not a valid regular expression the failure is recorded and
    /// surfaced only by [`Connector::end`], so the fluent chain never needs
    /// to be interrupted mid-build.
    pub fn regex(self, field: &str, exp: &str) -> (c: Connector)
        ensures
            c.frames() == self.frames(),
            c.last() == (Tree::Exp { field: field@, pattern: exp@ }),
            c.bad() == if regex_ok(exp@) {
                self.bad()
            } else {
                self.bad().push((field@, exp@))
            },
    {
        proof {
            use_type_invariant(&self);
        }
        let ghost b0 = self;
        let Builder { frames, mut bad } = self;
        let compiled = Pattern::compile(exp);
        if compiled.is_none() {
            bad.push((field.to_owned(), exp.to_owned()));
            proof {
                assert(bad_view(bad@) =~= bad_view(b0.bad@).push((field@, exp@)));
            }
        }
        let leaf = Node::Exp { field: field.to_owned(), pattern: exp.to_owned(), compiled };
        proof {
            if regex_ok(exp@) {
                assert(leaf.view().bad_patterns() =~= Seq::<(Seq<char>, Seq<char>)>::empty());
                assert(bad_view(bad@) =~= frames_bad(frames_view(frames@))
                    + leaf.view().bad_patterns());
            } else {
                assert(leaf.view().bad_patterns() =~= seq![(field@, exp@)]);
                assert(bad_view(bad@) =~= frames_bad(frames_view(frames@))
                    + leaf.view().bad_patterns());
            }
        }
        Connector { frames, bad, last: leaf }
    }

    /// Nests a filter at the current position of the filter that this
    /// instance is building.
    ///
    /// The nested filter behaves as a parenthesized group: it is grafted as a
    /// single opaque unit, exactly as a predicate is, and is never re-entered
    /// or restructured by later operators. For example `A OR (B AND C)`.
    pub fn nest(self, sub: Filter) -> (c: Connector)
        ensures
            c.frames() == self.frames(),
            c.last() == sub@,
            c.bad() == self.bad(),
    {
        proof {
            use_type_invariant(&self);
            use_type_invariant(&sub);
        }
        let Builder { frames, bad } = self;
        let Filter { root } = sub;
        proof {
            assert(root.view().bad_patterns() =~= Seq::<(Seq<char>, Seq<char>)>::empty());
            assert(bad_view(bad@) =~= frames_bad(frames_view(frames@))
                + root.view().bad_patterns());
        }
        Connector { frames, bad, last: root }
    }
}

/// Chains filter predicates to compose parent predicates when building a
/// filter: after a predicate or a nested group, the only legal next
/// operations are [`Connector::and`], [`Connector::or`] or [`Connector::end`].
pub struct Connector {
    frames: Vec<(Op, Node)>,
    bad: Vec<(String, String)>,
    last: Node,
}

impl Connector {
    /// The operators applied so far, each with the completed tree it
    /// captured as its left side.
    pub closed spec fn frames(&self) -> Seq<(Op, Tree)> {
        frames_view(self.frames@)
    }

    /// The (field, pattern) pairs whose pattern failed to compile, in the
    /// order they were supplied.
    pub closed spec fn bad(&self) -> Seq<(Seq<char>, Seq<char>)> {
        bad_view(self.bad@)
    }

    /// The most recently grafted unit: the predicate or nested group that the
    /// next operator will capture as its left side.
    pub closed spec fn last(&self) -> Tree {
        self.last.view()
    }

    /// As [`Builder::inv`], with the last grafted unit's bad patterns closing
    /// the recorded list.
    #[verifier::type_invariant]
    spec fn inv(self) -> bool {
        &&& frames_wf(self.frames@)
        &&& self.last.wf()
        &&& bad_view(self.bad@) == frames_bad(frames_view(self.frames@))
            + self.last.view().bad_patterns()
    }

    /// A logical `and` operator between a previous predicate and the next one
    /// to append.
    pub fn and(self) -> (b: Builder)
        ensures
            b.frames() == self.frames().push((Op::And, self.last())),
            b.bad() == self.bad(),
    {
        self.connect(Op::And)
    }

    /// A logical `or` operator between a previous predicate and the next one
    /// to append.
    pub fn or(self) -> (b: Builder)
        ensures
            b.frames() == self.frames().push((Op::Or, self.last())),
            b.bad() == self.bad(),
    {
        self.connect(Op::Or)
    }

    /// Applies `op` to the builder: the last grafted unit becomes the left
    /// side of a new open frame, and the next grafted unit its right side.
    fn connect(self, op: Op) -> (b: Builder)
        ensures
            b.frames() == self.frames().push((op, self.last())),
            b.bad() == self.bad(),
    {
        proof {
            use_type_invariant(&self);
        }
        let ghost c0 = self;
        let Connector { mut frames, bad, last } = self;
        frames.push((op, last));
        proof {
            assert(frames_view(frames@) =~= frames_view(c0.frames@).push((op, c0.last.view())));
            assert(frames_view(frames@).drop_last() =~= frames_view(c0.frames@));
            assert forall|i: int| 0 <= i < frames@.len() implies (#[trigger] frames@[i]).1.wf()
            by {
                if i < frames@.len() - 1 {
                    assert(frames@[i] == c0.frames@[i]);
                } else {
                    assert(frames@[i] == (op, c0.last));
                }
            }
        }
        Builder { frames, bad }
    }

    /// Ends the build process, returning the built filter.
    ///
    /// Returns the tree assembled from the whole chain when every supplied
    /// pattern compiled, and otherwise a single aggregated [`InvalidPattern`]
    /// error listing every (field, pattern) pair whose pattern failed to
    /// compile; no other outcome exists.
    pub fn end(self) -> (r: Result<Filter, InvalidPattern>)
        ensures
            self.bad() == assemble(self.frames(), self.last()).bad_patterns(),
            self.bad().len() == 0 ==> (r matches Ok(f) && f@ == assemble(
                self.frames(),
                self.last(),
            )),
            self.bad().len() > 0 ==> (r matches Err(e) && e@ == self.bad()),
    {
        proof {
            use_type_invariant(&self);
            lemma_assemble_bad(self.frames(), self.last());
        }
        let ghost c0 = self;
        let Connector { mut frames, bad, last } = self;
        if bad.len() > 0 {
            let e = InvalidPattern { entries: bad };
            proof {
                assert(e@ =~= c0.bad());
            }
            return Err(e);
        }
        let mut acc = last;
        while frames.len() > 0
            invariant
                frames_wf(frames@),
                acc.wf(),
                assemble(frames_view(frames@), acc.view()) == assemble(c0.frames(), c0.last()),
            decreases frames.len(),
        {
            let ghost before = frames@;
            let frame = frames.pop().unwrap();
            let (op, left) = frame;
            proof {
                assert(before[before.len() - 1] == (op, left));
                assert(frames_view(frames@) =~= frames_view(before).drop_last());
                assert(frames_view(before).last() == (op, left.view()));
            }
            acc = match op {
                Op::And => Node::And { left: Box::new(left), right: Box::new(acc) },
                Op::Or => Node::Or { left: Box::new(left), right: Box::new(acc) },
            };
        }
        proof {
            assert(acc.view() == assemble(c0.frames(), c0.last()));
            assert(acc.view().bad_patterns().len() == 0);
        }
        Ok(Filter { root: acc })
    }
}

/// One step of a fluent chain after the first predicate: a join operator
/// followed by a predicate with the given field name and pattern text.
pub struct ChainStep {
    pub op: Op,
    pub field: Seq<char>,
    pub pattern: Seq<char>,
}

/// The frames of a connector reached by supplying the first predicate and
/// then every step of `steps`, per the contracts of [`Builder::regex`],
/// [`Connector::and`] and [`Connector::or`].
pub open spec fn chain_frames(field0: Seq<char>, pattern0: Seq<char>, steps: Seq<ChainStep>)
    -> Seq<(Op, Tree)>
    decreases steps.len(),
{
    if steps.len() == 0 {
        Seq::empty()
    } else {
        chain_frames(field0, pattern0, steps.drop_last()).push(
            (steps.last().op, chain_last(field0, pattern0, steps.drop_last())),
        )
    }
}

/// The last grafted unit of the same chain.
pub open spec fn chain_last(field0: Seq<char>, pattern0: Seq<char>, steps: Seq<ChainStep>)
    -> Tree
{
    if steps.len() == 0 {
        Tree::Exp { field: field0, pattern: pattern0 }
    } else {
        Tree::Exp { field: steps.last().field, pattern: steps.last().pattern }
    }
}

/// The bad-pattern list of the same chain: the supplied (field, pattern)
/// pairs whose pattern does not compile, in order.
pub open spec fn chain_bad(field0: Seq<char>, pattern0: Seq<char>, steps: Seq<ChainStep>)
    -> Seq<(Seq<char>, Seq<char>)>
    decreases steps.len(),
{
    if steps.len() == 0 {
        if regex_ok(pattern0) {
            Seq::empty()
        } else {
            seq![(field0, pattern0)]
        }
    } else {
        chain_bad(field0, pattern0, steps.drop_last()) + (if regex_ok(steps.last().pattern) {
            Seq::<(Seq<char>, Seq<char>)>::empty()
        } else {
            seq![(steps.last().field, steps.last().pattern)]
        })
    }
}

/// Law: a correctly used chain of one or more predicates joined by arbitrary
/// AND/OR operators always ends cleanly. By [`Connector::end`]'s contract the
/// only outcomes are the assembled tree, owed exactly when every supplied
/// pattern compiles, and one aggregated invalid-pattern list naming every
/// (field, pattern) pair that failed, in order; finishing never fails in any
/// other way.
pub proof fn lemma_chain_end(field0: Seq<char>, pattern0: Seq<char>, steps: Seq<ChainStep>)
    ensures
        assemble(chain_frames(field0, pattern0, steps), chain_last(field0, pattern0, steps))
            .bad_patterns() == chain_bad(field0, pattern0, steps),
        chain_bad(field0, pattern0, steps).len() == 0 <==> regex_ok(pattern0) && (forall|i: int|
            0 <= i < steps.len() ==> regex_ok((#[trigger] steps[i]).pattern)),
    decreases steps.len(),
{
    lemma_assemble_bad(
        chain_frames(field0, pattern0, steps),
        chain_last(field0, pattern0, steps),
    );
    if steps.len() == 0 {
        assert(assemble(chain_frames(field0, pattern0, steps), chain_last(field0, pattern0, steps))
            .bad_patterns() =~= chain_bad(field0, pattern0, steps));
    } else {
        let shorter = steps.drop_last();
        lemma_chain_end(field0, pattern0, shorter);
        lemma_assemble_bad(
            chain_frames(field0, pattern0, shorter),
            chain_last(field0, pattern0, shorter),
        );
        let frames = chain_frames(field0, pattern0, steps);
        assert(frames.drop_last() =~= chain_frames(field0, pattern0, shorter));
        assert(frames_bad(frames) == frames_bad(frames.drop_last())
            + chain_last(field0, pattern0, shorter).bad_patterns());
        assert(assemble(frames, chain_last(field0, pattern0, steps)).bad_patterns()
            =~= chain_bad(field0, pattern0, steps));
        assert forall|i: int| 0 <= i < steps.len() && chain_bad(field0, pattern0, steps).len() == 0
            implies regex_ok((#[trigger] steps[i]).pattern)
        by {
            if i < steps.len() - 1 {
                assert(steps[i] == shorter[i]);
            }
        }
    }
}

/// Law (right-nesting): finishing a chain of four grafted units joined by
/// three operators yields the right-nested tree `op1(t1, op2(t2, op3(t3,
/// t4)))` — each new operator captures the previous operator's right subtree,
/// never the root — and not a left-nested one.
pub proof fn lemma_right_nesting(op1: Op, op2: Op, op3: Op, t1: Tree, t2: Tree, t3: Tree, t4: Tree)
    ensures
        assemble(seq![(op1, t1), (op2, t2), (op3, t3)], t4) == make_node(
            op1,
            t1,
            make_node(op2, t2, make_node(op3, t3, t4)),
        ),
{
    let frames = seq![(op1, t1), (op2, t2), (op3, t3)];
    let s2 = seq![(op1, t1), (op2, t2)];
    let s1 = seq![(op1, t1)];
    let s0 = Seq::<(Op, Tree)>::empty();
    assert(frames.drop_last() =~= s2);
    assert(s2.drop_last() =~= s1);
    assert(s1.drop_last() =~= s0);
    assert(frames.last() == (op3, t3));
    assert(s2.last() == (op2, t2));
    assert(s1.last() == (op1, t1));
    let inner3 = make_node(op3, t3, t4);
    let inner2 = make_node(op2, t2, inner3);
    let inner1 = make_node(op1, t1, inner2);
    assert(assemble(frames, t4) == assemble(s2, inner3));
    assert(assemble(s2, inner3) == assemble(s1, inner2));
    assert(assemble(s1, inner2) == assemble(s0, inner1));
    assert(assemble(s0, inner1) == inner1);
}

/// Law (grouping is transparent when it is the whole expression): nesting a
/// finished filter as the sole content and ending at once yields a tree
/// identical to the nested filter's own.
pub proof fn lemma_nest_alone(sub: Tree)
    ensures
        assemble(Seq::<(Op, Tree)>::empty(), sub) == sub,
{
}

/// Law (evaluator short-circuit): an AND whose left side is false is false
/// whatever its right side holds, and an OR whose left side is true is true
/// whatever its right side holds; the evaluation of the right side cannot
/// change the outcome.
pub proof fn lemma_short_circuit(left: Tree, right: Tree, record: RecordModel)
    ensures
        !left.eval(record) ==> !(Tree::And {
            left: Box::new(left),
            right: Box::new(right),
        }).eval(record),
        left.eval(record) ==> (Tree::Or {
            left: Box::new(left),
            right: Box::new(right),
        }).eval(record),
{
}

/// Law (missing-field semantics): a predicate over a field that a record
/// does not hold evaluates to false on that record — never an error.
pub proof fn lemma_missing_field(field: Seq<char>, pattern: Seq<char>, record: RecordModel)
    requires
        lookup(record, field) is None,
    ensures
        !(Tree::Exp { field, pattern }).eval(record),
{
}

} // verus!
