//! The vocabulary of the engine: genders, names and the nine kinds of fact.

use vstd::prelude::*;

verus! {

/// The gender recorded for a person. Only `Male` and `Female` open a
/// gender-gated rule; `X` stands for every other or unspecified gender.
#[derive(Clone, Copy, Debug, PartialEq, Eq, Hash, Structural)]
pub enum Gender {
    Male,
    Female,
    X,
}

/// A name as the model sees it: the characters of the token.
pub type Name = Seq<char>;

/// A statement about one or two named people.
#[derive(Debug, Eq, Hash)]
pub enum Fact {
    Person { name: String, gender: Gender },
    Parent { parent: String, child: String },
    Father { father: String, child: String },
    Mother { mother: String, child: String },
    Sibling { a: String, b: String },
    Uncle { uncle: String, nibling: String },
    Cousin { a: String, b: String },
    /// A nephew or a niece of `relative`.
    Nibling { nibling: String, relative: String },
    Grandson { grandson: String, grandparent: String },
}

/// The mathematical value of a [`Fact`]: its tag and its fields, with each
/// name taken as a sequence of characters. Two facts are the same fact
/// exactly when their views are equal.
pub enum FactView {
    Person { name: Name, gender: Gender },
    Parent { parent: Name, child: Name },
    Father { father: Name, child: Name },
    Mother { mother: Name, child: Name },
    Sibling { a: Name, b: Name },
    Uncle { uncle: Name, nibling: Name },
    Cousin { a: Name, b: Name },
    Nibling { nibling: Name, relative: Name },
    Grandson { grandson: Name, grandparent: Name },
}

impl View for Fact {
    type V = FactView;

    open spec fn view(&self) -> FactView {
        match *self {
            Fact::Person { name, gender } => FactView::Person { name: name@, gender },
            Fact::Parent { parent, child } => FactView::Parent { parent: parent@, child: child@ },
            Fact::Father { father, child } => FactView::Father { father: father@, child: child@ },
            Fact::Mother { mother, child } => FactView::Mother { mother: mother@, child: child@ },
            Fact::Sibling { a, b } => FactView::Sibling { a: a@, b: b@ },
            Fact::Uncle { uncle, nibling } => FactView::Uncle { uncle: uncle@, nibling: nibling@ },
            Fact::Cousin { a, b } => FactView::Cousin { a: a@, b: b@ },
            Fact::Nibling { nibling, relative } => FactView::Nibling {
                nibling: nibling@,
                relative: relative@,
            },
            Fact::Grandson { grandson, grandparent } => FactView::Grandson {
                grandson: grandson@,
                grandparent: grandparent@,
            },
        }
    }
}

impl PartialEq for Fact {
    /// Structural equality: the same tag and the same fields.
    fn eq(&self, other: &Fact) -> (same: bool) {
        match (self, other) {
            (Fact::Person { name: n1, gender: g1 }, Fact::Person { name: n2, gender: g2 }) => {
                *n1 == *n2 && *g1 == *g2
            },
            (Fact::Parent { parent: x1, child: y1 }, Fact::Parent { parent: x2, child: y2 }) => {
                *x1 == *x2 && *y1 == *y2
            },
            (Fact::Father { father: x1, child: y1 }, Fact::Father { father: x2, child: y2 }) => {
                *x1 == *x2 && *y1 == *y2
            },
            (Fact::Mother { mother: x1, child: y1 }, Fact::Mother { mother: x2, child: y2 }) => {
                *x1 == *x2 && *y1 == *y2
            },
            (Fact::Sibling { a: x1, b: y1 }, Fact::Sibling { a: x2, b: y2 }) => {
                *x1 == *x2 && *y1 == *y2
            },
            (Fact::Uncle { uncle: x1, nibling: y1 }, Fact::Uncle { uncle: x2, nibling: y2 }) => {
                *x1 == *x2 && *y1 == *y2
            },
            (Fact::Cousin { a: x1, b: y1 }, Fact::Cousin { a: x2, b: y2 }) => {
                *x1 == *x2 && *y1 == *y2
            },
            (
                Fact::Nibling { nibling: x1, relative: y1 },
                Fact::Nibling { nibling: x2, relative: y2 },
            ) => *x1 == *x2 && *y1 == *y2,
            (
                Fact::Grandson { grandson: x1, grandparent: y1 },
                Fact::Grandson { grandson: x2, grandparent: y2 },
            ) => *x1 == *x2 && *y1 == *y2,
            _ => false,
        }
    }
}

impl vstd::std_specs::cmp::PartialEqSpecImpl for Fact {
    open spec fn obeys_eq_spec() -> bool {
        true
    }

    open spec fn eq_spec(&self, other: &Fact) -> bool {
        self@ == other@
    }
}

impl Clone for Fact {
    /// A copy that states the same fact.
    fn clone(&self) -> (copy: Fact)
        ensures
            copy@ == self@,
    {
        match self {
            Fact::Person { name, gender } => Fact::Person { name: name.clone(), gender: *gender },
            Fact::Parent { parent, child } => Fact::Parent {
                parent: parent.clone(),
                child: child.clone(),
            },
            Fact::Father { father, child } => Fact::Father {
                father: father.clone(),
                child: child.clone(),
            },
            Fact::Mother { mother, child } => Fact::Mother {
                mother: mother.clone(),
                child: child.clone(),
            },
            Fact::Sibling { a, b } => Fact::Sibling { a: a.clone(), b: b.clone() },
            Fact::Uncle { uncle, nibling } => Fact::Uncle {
                uncle: uncle.clone(),
                nibling: nibling.clone(),
            },
            Fact::Cousin { a, b } => Fact::Cousin { a: a.clone(), b: b.clone() },
            Fact::Nibling { nibling, relative } => Fact::Nibling {
                nibling: nibling.clone(),
                relative: relative.clone(),
            },
            Fact::Grandson { grandson, grandparent } => Fact::Grandson {
                grandson: grandson.clone(),
                grandparent: grandparent.clone(),
            },
        }
    }
}

} // verus!
