//! The two syntax-tree shapes that a closure carries. This library stores
//! them and hands them back; it never looks inside.

use vstd::prelude::*;

verus! {

/// A name as it stands in the program text.
#[derive(Debug, PartialEq, Eq)]
pub struct Identifier {
    pub name: String,
}

/// The body of a function literal, kept as the text of its statements.
#[derive(Debug, PartialEq, Eq)]
pub struct BlockStatement {
    pub source: String,
}

impl View for Identifier {
    type V = Seq<char>;

    open spec fn view(&self) -> Seq<char> {
        self.name@
    }
}

impl View for BlockStatement {
    type V = Seq<char>;

    open spec fn view(&self) -> Seq<char> {
        self.source@
    }
}

impl Clone for Identifier {
    fn clone(&self) -> (res: Self)
        ensures
            res@ == self@,
    {
        Identifier { name: self.name.clone() }
    }
}

impl Clone for BlockStatement {
    fn clone(&self) -> (res: Self)
        ensures
            res@ == self@,
    {
        BlockStatement { source: self.source.clone() }
    }
}

/// The names of a parameter list, in order.
pub open spec fn names_of(parameters: Seq<Identifier>) -> Seq<Seq<char>> {
    Seq::new(parameters.len(), |i: int| parameters[i]@)
}

/// Copies a parameter list.
pub fn clone_parameters(parameters: &Vec<Identifier>) -> (res: Vec<Identifier>)
    ensures
        names_of(res@) == names_of(parameters@),
{
    let mut res: Vec<Identifier> = Vec::new();
    let mut i: usize = 0;
    while i < parameters.len()
        invariant
            i <= parameters.len(),
            res.len() == i,
            forall|j: int| 0 <= j < i ==> res[j]@ == parameters[j]@,
        decreases parameters.len() - i,
    {
        res.push(parameters[i].clone());
        i += 1;
    }
    assert(names_of(res@) =~= names_of(parameters@));
    res
}

/// Whether two parameter lists hold the same names in the same order.
pub fn same_names(a: &Vec<Identifier>, b: &Vec<Identifier>) -> (res: bool)
    ensures
        res == (names_of(a@) == names_of(b@)),
{
    if a.len() != b.len() {
        assert(names_of(a@).len() != names_of(b@).len());
        return false;
    }
    let mut i: usize = 0;
    while i < a.len()
        invariant
            i <= a.len(),
            a.len() == b.len(),
            forall|j: int| 0 <= j < i ==> a[j]@ == b[j]@,
        decreases a.len() - i,
    {
        if a[i].name != b[i].name {
            assert(names_of(a@)[i as int] != names_of(b@)[i as int]);
            return false;
        }
        i += 1;
    }
    assert(names_of(a@) =~= names_of(b@));
    true
}

} // verus!
