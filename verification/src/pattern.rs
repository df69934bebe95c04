//! The pattern tree that a usage text compiles to, and its mathematical view.

use vstd::prelude::*;

verus! {

/// One node of the compiled usage grammar.
///
/// A flag atom carries its canonical name (`"--output"`, `"-v"`) together
/// with whether it consumes an argument. `AnyOptions` stands for the
/// `[options]` shorthand: any declared flags, in any number. The children of
/// an `Optional` group are each individually optional; the children of a
/// `Sequence` or of one `Alternation` branch are required in order.
#[derive(Debug, PartialEq, Eq)]
pub enum Pattern {
    Command(Vec<char>),
    Positional(Vec<char>),
    Flag(Vec<char>, bool),
    AnyOptions,
    Sequence(Vec<Pattern>),
    Alternation(Vec<Pattern>),
    Optional(Vec<Pattern>),
    Repeated(Box<Pattern>),
}

/// The mathematical value of a pattern tree.
pub enum PatternModel {
    Command(Seq<char>),
    Positional(Seq<char>),
    Flag(Seq<char>, bool),
    AnyOptions,
    Sequence(Seq<PatternModel>),
    Alternation(Seq<PatternModel>),
    Optional(Seq<PatternModel>),
    Repeated(Box<PatternModel>),
}

impl Pattern {
    /// The mathematical value of this tree: names become character
    /// sequences, children become sequences of models.
    pub open spec fn model(self) -> PatternModel
        decreases self, 1int,
    {
        match self {
            Pattern::Command(n) => PatternModel::Command(n@),
            Pattern::Positional(n) => PatternModel::Positional(n@),
            Pattern::Flag(n, a) => PatternModel::Flag(n@, a),
            Pattern::AnyOptions => PatternModel::AnyOptions,
            Pattern::Sequence(cs) => PatternModel::Sequence(models_of(cs@)),
            Pattern::Alternation(cs) => PatternModel::Alternation(models_of(cs@)),
            Pattern::Optional(cs) => PatternModel::Optional(models_of(cs@)),
            Pattern::Repeated(p) => PatternModel::Repeated(Box::new((*p).model())),
        }
    }
}

/// The models of a sequence of pattern trees, element by element.
pub open spec fn models_of(s: Seq<Pattern>) -> Seq<PatternModel>
    decreases s, 0int,
{
    if s.len() == 0 {
        Seq::empty()
    } else {
        models_of(s.drop_last()).push(s.last().model())
    }
}

/// `models_of` maps `model` over the sequence: same length, matching
/// elements.
pub proof fn lemma_models_of(s: Seq<Pattern>)
    ensures
        models_of(s).len() == s.len(),
        forall|i: int| 0 <= i < s.len() ==> #[trigger] models_of(s)[i] == s[i].model(),
    decreases s.len(),
{
    if s.len() > 0 {
        lemma_models_of(s.drop_last());
        assert forall|i: int| 0 <= i < s.len() implies #[trigger] models_of(s)[i] == s[i].model() by {
            if i < s.len() - 1 {
                assert(s.drop_last()[i] == s[i]);
                assert(models_of(s)[i] == models_of(s.drop_last())[i]);
            }
        }
    }
}

} // verus!
