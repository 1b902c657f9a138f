//! Paths: sequences of steps that address a place inside a value tree.
//!
//! A step either names an entry of a table or gives a position in an array.
//! A negative position counts from the end of the array that it meets; it is
//! resolved when the tree is walked, never before. The empty path addresses
//! the root.

use vstd::prelude::*;
use vstd::std_specs::cmp::PartialEqSpecImpl;
use vstd::std_specs::convert::FromSpecImpl;

verus! {

/// One step of a path.
#[derive(Debug, Clone, Hash)]
pub enum PathNode {
    Identifier(String),
    Index(isize),
}

/// The model of a step.
pub ghost enum Step {
    Identifier(Seq<char>),
    Index(int),
}

impl View for PathNode {
    type V = Step;

    open spec fn view(&self) -> Step {
        match *self {
            PathNode::Identifier(name) => Step::Identifier(name@),
            PathNode::Index(i) => Step::Index(i as int),
        }
    }
}

impl PartialEq for PathNode {
    fn eq(&self, other: &PathNode) -> (r: bool) {
        match (self, other) {
            (PathNode::Identifier(a), PathNode::Identifier(b)) => *a == *b,
            (PathNode::Index(a), PathNode::Index(b)) => *a == *b,
            _ => false,
        }
    }
}

impl Eq for PathNode {

}

impl PartialEqSpecImpl for PathNode {
    open spec fn obeys_eq_spec() -> bool {
        true
    }

    open spec fn eq_spec(&self, other: &PathNode) -> bool {
        self@ == other@
    }
}

/// A path: its steps from the root.
#[derive(Debug, Clone, Hash)]
pub struct Path(pub Vec<PathNode>);

/// The models of a sequence of steps.
pub open spec fn steps_of(nodes: Seq<PathNode>) -> Seq<Step> {
    Seq::new(nodes.len(), |i: int| nodes[i]@)
}

impl View for Path {
    type V = Seq<Step>;

    open spec fn view(&self) -> Seq<Step> {
        steps_of(self.0@)
    }
}

impl PartialEq for Path {
    fn eq(&self, other: &Path) -> (r: bool) {
        if self.0.len() != other.0.len() {
            assert(self@.len() != other@.len());
            return false;
        }
        let mut i: usize = 0;
        while i < self.0.len()
            invariant
                i <= self.0.len(),
                self.0.len() == other.0.len(),
                forall|j: int| 0 <= j < i ==> self.0[j]@ == other.0[j]@,
            decreases self.0.len() - i,
        {
            if !self.0[i].eq(&other.0[i]) {
                assert(self@[i as int] != other@[i as int]);
                return false;
            }
            i += 1;
        }
        assert(self@ =~= other@);
        true
    }
}

impl Eq for Path {

}

impl PartialEqSpecImpl for Path {
    open spec fn obeys_eq_spec() -> bool {
        true
    }

    open spec fn eq_spec(&self, other: &Path) -> bool {
        self@ == other@
    }
}

impl Default for Path {
    /// The empty path, which addresses the root.
    fn default() -> (p: Path)
        ensures
            p@ == Seq::<Step>::empty(),
    {
        let p = Path(Vec::new());
        assert(p@ =~= Seq::<Step>::empty());
        p
    }
}

impl From<Vec<PathNode>> for Path {
    /// The path with the given steps.
    fn from(nodes: Vec<PathNode>) -> (p: Path) {
        Path(nodes)
    }
}

impl FromSpecImpl<Vec<PathNode>> for Path {
    open spec fn obeys_from_spec() -> bool {
        true
    }

    open spec fn from_spec(nodes: Vec<PathNode>) -> Path {
        Path(nodes)
    }
}

impl Path {
    /// The number of steps.
    pub fn len(&self) -> (n: usize)
        ensures
            n == self@.len(),
    {
        self.0.len()
    }

    /// Whether the path addresses the root.
    pub fn is_empty(&self) -> (r: bool)
        ensures
            r == (self@.len() == 0),
    {
        self.0.len() == 0
    }

    /// The steps of the path.
    pub fn nodes(&self) -> (nodes: &Vec<PathNode>)
        ensures
            steps_of(nodes@) == self@,
    {
        &self.0
    }
}

} // verus!
