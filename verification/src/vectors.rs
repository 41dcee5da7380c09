//! Growable, index-addressable sequences.

use vstd::prelude::*;

verus! {

/// An element that is either a number or a piece of text, so that one vector
/// can hold values of both kinds.
#[derive(Debug)]
pub enum HelloWorld {
    Hello(i32),
    World(String),
}

/// What a `HelloWorld` stands for: the number, or the characters of the text.
pub ghost enum HelloWorldView {
    Hello(int),
    World(Seq<char>),
}

impl View for HelloWorld {
    type V = HelloWorldView;

    open spec fn view(&self) -> HelloWorldView {
        match self {
            HelloWorld::Hello(number) => HelloWorldView::Hello(*number as int),
            HelloWorld::World(text) => HelloWorldView::World(text@),
        }
    }
}

/// The values that `vector_stuff` meets on its way, in the order in which it meets them.
pub struct VectorSteps {
    /// The vector after 1, 2 and 3 were appended.
    pub appended: Vec<isize>,
    /// The first element, read by index.
    pub first: isize,
    /// The vector after five was added to its first element.
    pub after_add: Vec<isize>,
    /// Checked access at index 0.
    pub checked_first: Option<isize>,
    /// Checked access at index 100.
    pub checked_hundredth: Option<isize>,
    /// What an iteration by shared borrow visits.
    pub visited: Vec<isize>,
    /// The vector after one incrementing pass.
    pub after_first_pass: Vec<isize>,
    /// The vector after a second incrementing pass.
    pub after_second_pass: Vec<isize>,
    /// A vector that holds a number and a text side by side.
    pub hello_world: Vec<HelloWorld>,
}

/// Checked access: the element at `index` if there is one, and `None` past the end.
pub fn checked_get<T>(v: &Vec<T>, index: usize) -> (found: Option<&T>)
    ensures
        index < v@.len() ==> found == Some(&v@[index as int]),
        index >= v@.len() ==> found is None,
{
    v.get(index)
}

/// Unchecked access: the element at `index`, which has to exist.
pub fn element_at<T>(v: &Vec<T>, index: usize) -> (element: &T)
    requires
        index < v@.len(),
    ensures
        *element == v@[index as int],
{
    &v[index]
}

/// Adds `amount` to the element at `index` through a mutable handle to it and
/// leaves every other element as it was.
pub fn add_at(v: &mut Vec<isize>, index: usize, amount: isize)
    requires
        index < old(v)@.len(),
        isize::MIN <= old(v)@[index as int] + amount <= isize::MAX,
    ensures
        final(v)@ == old(v)@.update(index as int, (old(v)@[index as int] + amount) as isize),
{
    let element = &mut v[index];
    *element += amount;
}

/// Visits every element through a mutable handle and adds one to it.
pub fn increment_all(v: &mut Vec<isize>)
    requires
        forall|i: int| 0 <= i < old(v)@.len() ==> old(v)@[i] < isize::MAX,
    ensures
        final(v)@.len() == old(v)@.len(),
        forall|i: int| 0 <= i < old(v)@.len() ==> final(v)@[i] == old(v)@[i] + 1,
{
    let mut position: usize = 0;
    while position < v.len()
        invariant
            position <= v@.len(),
            v@.len() == old(v)@.len(),
            forall|i: int| 0 <= i < position ==> v@[i] == old(v)@[i] + 1,
            forall|i: int| position <= i < v@.len() ==> v@[i] == old(v)@[i],
            forall|i: int| 0 <= i < old(v)@.len() ==> old(v)@[i] < isize::MAX,
        decreases v@.len() - position,
    {
        let element = &mut v[position];
        *element += 1;
        position += 1;
    }
}

/// Visits every element by shared borrow and returns what it saw, in the order
/// of the visit.
pub fn visit_all(v: &Vec<isize>) -> (visited: Vec<isize>)
    ensures
        visited@ == v@,
{
    let mut visited: Vec<isize> = Vec::new();
    for element in iter: v.iter()
        invariant
            visited@.len() == iter.index(),
            forall|i: int| 0 <= i < iter.index() ==> visited@[i] == *iter.seq()[i],
    {
        visited.push(*element);
    }
    visited
}

/// A vector of two elements of different kinds: the number 123, then the text
/// "Da world".
pub fn hello_world_vec() -> (elements: Vec<HelloWorld>)
    ensures
        elements@.len() == 2,
        elements@[0]@ == HelloWorldView::Hello(123),
        elements@[1]@ == HelloWorldView::World("Da world"@),
{
    let mut elements: Vec<HelloWorld> = Vec::new();
    elements.push(HelloWorld::Hello(123));
    elements.push(HelloWorld::World(String::from_str("Da world")));
    elements
}

/// Walks through the operations of a vector: appends 1, 2 and 3, reads and
/// changes the first element by index, looks up a present and an absent index,
/// iterates by shared and by mutable borrow, and builds a vector of mixed
/// elements.
pub fn vector_stuff() -> (steps: VectorSteps)
    ensures
        steps.appended@ == seq![1isize, 2, 3],
        steps.first == 1,
        steps.after_add@ == seq![6isize, 2, 3],
        steps.checked_first == Some(6isize),
        steps.checked_hundredth == None::<isize>,
        steps.visited@ == seq![6isize, 2, 3],
        steps.after_first_pass@ == seq![7isize, 3, 4],
        steps.after_second_pass@ == seq![8isize, 4, 5],
        steps.hello_world@.len() == 2,
        steps.hello_world@[0]@ == HelloWorldView::Hello(123),
        steps.hello_world@[1]@ == HelloWorldView::World("Da world"@),
{
    let mut v: Vec<isize> = Vec::new();
    v.push(1);
    v.push(2);
    v.push(3);
    let appended = visit_all(&v);

    let first = *element_at(&v, 0);

    add_at(&mut v, 0, 5);
    let after_add = visit_all(&v);

    let checked_first = match checked_get(&v, 0) {
        Some(value) => Some(*value),
        None => None,
    };
    let checked_hundredth = match checked_get(&v, 100) {
        Some(value) => Some(*value),
        None => None,
    };

    let visited = visit_all(&v);

    increment_all(&mut v);
    let after_first_pass = visit_all(&v);

    increment_all(&mut v);
    let after_second_pass = visit_all(&v);

    VectorSteps {
        appended,
        first,
        after_add,
        checked_first,
        checked_hundredth,
        visited,
        after_first_pass,
        after_second_pass,
        hello_world: hello_world_vec(),
    }
}

} // verus!
