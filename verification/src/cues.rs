//! The clips that input handling asks the caller to play.

use vstd::prelude::*;

verus! {

/// Names of clips to be played, in the order in which they were asked for.
pub struct Cues {
    names: Vec<String>,
}

impl View for Cues {
    type V = Seq<Seq<char>>;

    closed spec fn view(&self) -> Seq<Seq<char>> {
        Seq::new(self.names@.len(), |i: int| self.names@[i]@)
    }
}

impl Cues {
    /// No clip asked for yet.
    pub fn new() -> (r: Cues)
        ensures
            r@ == Seq::<Seq<char>>::empty(),
    {
        let r = Cues { names: Vec::new() };
        assert(r@ =~= Seq::<Seq<char>>::empty());
        r
    }

    /// The number of clips asked for.
    pub fn len(&self) -> (n: usize)
        ensures
            n == self@.len(),
    {
        self.names.len()
    }

    /// The name at position `index`.
    pub fn get(&self, index: usize) -> (name: &String)
        requires
            index < self@.len(),
        ensures
            name@ == self@[index as int],
    {
        &self.names[index]
    }

    /// Asks for the clip called `name`.
    pub fn push(&mut self, name: String)
        ensures
            final(self)@ == old(self)@.push(name@),
    {
        self.names.push(name);
        assert(self@ =~= old(self)@.push(name@));
    }

    /// The names, for the caller to act on.
    pub fn into_names(self) -> (r: Vec<String>)
        ensures
            r@.len() == self@.len(),
            forall|i: int| 0 <= i < r@.len() ==> (#[trigger] r@[i])@ == self@[i],
    {
        self.names
    }
}

} // verus!
