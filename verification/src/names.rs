use vstd::prelude::*;
use vstd::string::StringExecFns;

verus! {

/// A finite set of names that remembers the order in which they arrived.
///
/// The model is the sequence [`NameSet::order`], which never holds a name
/// twice; the view is the set of its elements.
pub struct NameSet {
    names: Vec<String>,
}

impl View for NameSet {
    type V = Set<Seq<char>>;

    open spec fn view(&self) -> Set<Seq<char>> {
        self.order().to_set()
    }
}

/// `names` with every occurrence of `name` taken out, the rest in order.
pub open spec fn without(names: Seq<Seq<char>>, name: Seq<char>) -> Seq<Seq<char>>
    decreases names.len(),
{
    if names.len() == 0 {
        names
    } else if names.last() == name {
        without(names.drop_last(), name)
    } else {
        without(names.drop_last(), name).push(names.last())
    }
}

impl NameSet {
    /// The names held, oldest first.
    pub closed spec fn order(&self) -> Seq<Seq<char>> {
        self.names.deep_view()
    }

    #[verifier::type_invariant]
    spec fn distinct(&self) -> bool {
        self.order().no_duplicates()
    }

    /// The empty set.
    pub fn new() -> (set: NameSet)
        ensures
            set.order() == Seq::<Seq<char>>::empty(),
            set@ == Set::<Seq<char>>::empty(),
    {
        let set = NameSet { names: Vec::new() };
        assert(set.order() =~= Seq::<Seq<char>>::empty());
        assert(set@ =~= Set::<Seq<char>>::empty());
        set
    }

    /// How many names are held.
    pub fn len(&self) -> (n: usize)
        ensures
            n == self.order().len(),
    {
        self.names.len()
    }

    /// The name at place `index` of the insertion order.
    pub fn get(&self, index: usize) -> (name: &String)
        requires
            index < self.order().len(),
        ensures
            name@ == self.order()[index as int],
    {
        &self.names[index]
    }

    /// Moves the names out, leaving the set empty.
    fn take_names(&mut self) -> (names: Vec<String>)
        ensures
            names.deep_view() == old(self).order(),
            final(self).order() == Seq::<Seq<char>>::empty(),
    {
        let mut taken = NameSet::new();
        core::mem::swap(self, &mut taken);
        taken.names
    }

    /// Where `name` stands in the insertion order, if it is held.
    fn position(&self, name: &String) -> (found: Option<usize>)
        ensures
            match found {
                Some(i) => i < self.order().len() && self.order()[i as int] == name@,
                None => !self.order().contains(name@),
            },
    {
        let mut i: usize = 0;
        while i < self.names.len()
            invariant
                i <= self.names.len(),
                forall|j: int| 0 <= j < i ==> self.order()[j] != name@,
            decreases self.names.len() - i,
        {
            if self.names[i] == *name {
                return Some(i);
            }
            i += 1;
        }
        None
    }

    /// Whether `name` is in the set.
    pub fn contains(&self, name: &str) -> (held: bool)
        ensures
            held == self@.contains(name@),
    {
        let key = String::from_str(name);
        self.position(&key).is_some()
    }

    /// Adds `name` at the end of the insertion order unless it is already
    /// held, and tells whether it was new.
    pub fn insert(&mut self, name: String) -> (fresh: bool)
        ensures
            fresh == !old(self)@.contains(name@),
            final(self).order() == if fresh {
                old(self).order().push(name@)
            } else {
                old(self).order()
            },
            final(self)@ == old(self)@.insert(name@),
    {
        proof {
            use_type_invariant(&*self);
        }
        match self.position(&name) {
            Some(_) => {
                assert(self@.insert(name@) =~= self@);
                false
            },
            None => {
                let ghost before = self.order();
                let mut names = self.take_names();
                names.push(name);
                assert(names.deep_view() =~= before.push(name@));
                proof {
                    before.lemma_push_to_set_commute(name@);
                }
                *self = NameSet { names };
                true
            },
        }
    }

    /// Takes `name` out of the set, and tells whether it was held.
    pub fn remove(&mut self, name: &str) -> (held: bool)
        ensures
            held == old(self)@.contains(name@),
            final(self).order() == without(old(self).order(), name@),
            final(self)@ == old(self)@.remove(name@),
    {
        proof {
            use_type_invariant(&*self);
        }
        let key = String::from_str(name);
        match self.position(&key) {
            Some(i) => {
                let ghost before = self.order();
                let mut names = self.take_names();
                let _ = names.remove(i);
                assert(names.deep_view() =~= before.remove(i as int));
                proof {
                    lemma_without_once(before, i as int);
                    lemma_without_set(before, name@);
                }
                *self = NameSet { names };
                true
            },
            None => {
                proof {
                    lemma_without_absent(self.order(), name@);
                }
                assert(self@.remove(name@) =~= self@);
                false
            },
        }
    }
}

impl Default for NameSet {
    fn default() -> (set: NameSet)
        ensures
            set.order() == Seq::<Seq<char>>::empty(),
            set@ == Set::<Seq<char>>::empty(),
    {
        NameSet::new()
    }
}

impl Clone for NameSet {
    fn clone(&self) -> (copy: NameSet)
        ensures
            copy.order() == self.order(),
            copy@ == self@,
    {
        proof {
            use_type_invariant(self);
        }
        let mut names: Vec<String> = Vec::new();
        let mut i: usize = 0;
        while i < self.names.len()
            invariant
                i <= self.names.len(),
                names.deep_view() == self.order().take(i as int),
            decreases self.names.len() - i,
        {
            let ghost before = names.deep_view();
            let name = self.names[i].clone();
            assert(name@ == self.order()[i as int]);
            names.push(name);
            assert(names.deep_view() =~= before.push(name@));
            i += 1;
            assert(names.deep_view() =~= self.order().take(i as int));
        }
        assert(self.order().take(i as int) =~= self.order());
        NameSet { names }
    }
}

/// Taking out a name that does not occur changes nothing.
pub proof fn lemma_without_absent(names: Seq<Seq<char>>, name: Seq<char>)
    requires
        !names.contains(name),
    ensures
        without(names, name) == names,
    decreases names.len(),
{
    if names.len() > 0 {
        let front = names.drop_last();
        assert forall|k: int| 0 <= k < front.len() implies front[k] != name by {
            assert(names[k] == front[k]);
        }
        assert(names[names.len() - 1] != name);
        lemma_without_absent(front, name);
        assert(front.push(names.last()) =~= names);
    }
}

/// In a sequence without duplicates, taking out the name at place `i` is
/// deleting that one place, and leaves no duplicates.
pub proof fn lemma_without_once(names: Seq<Seq<char>>, i: int)
    requires
        names.no_duplicates(),
        0 <= i < names.len(),
    ensures
        without(names, names[i]) == names.remove(i),
        names.remove(i).no_duplicates(),
    decreases names.len(),
{
    let front = names.drop_last();
    let last = names.len() - 1;
    if i == last {
        assert forall|k: int| 0 <= k < front.len() implies front[k] != names[i] by {
            assert(names[k] == front[k]);
        }
        lemma_without_absent(front, names[i]);
        assert(names.remove(i) =~= front);
    } else {
        assert(front[i] == names[i]);
        assert(names[last] != names[i]);
        lemma_without_once(front, i);
        assert(names.remove(i) =~= front.remove(i).push(names.last()));
    }
}

/// The names that are left after taking one out are the others.
pub proof fn lemma_without_set(names: Seq<Seq<char>>, name: Seq<char>)
    ensures
        without(names, name).to_set() == names.to_set().remove(name),
    decreases names.len(),
{
    if names.len() == 0 {
        assert(names.to_set() =~= Set::<Seq<char>>::empty());
        assert(names.to_set().remove(name) =~= names.to_set());
    } else {
        let front = names.drop_last();
        lemma_without_set(front, name);
        front.lemma_push_to_set_commute(names.last());
        assert(front.push(names.last()) =~= names);
        if names.last() == name {
            assert(names.to_set().remove(name) =~= front.to_set().remove(name));
        } else {
            without(front, name).lemma_push_to_set_commute(names.last());
            assert(names.to_set().remove(name) =~= front.to_set().remove(name).insert(
                names.last(),
            ));
        }
    }
}

} // verus!
