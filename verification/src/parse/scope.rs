//! What the names of a text stand for.
use vstd::prelude::*;
use vstd::string::*;
use crate::error::Error;
use crate::error::ErrorView;
use crate::ids::ValueId;
use crate::text::same;

verus! {

/// The values the names behind `%` stand for. A name defined again stands for
/// the later value.
pub struct Scope {
    names: Vec<(String, ValueId)>,
}

/// What a name stands for among `names`: the value of its last definition.
pub open spec fn bound_in(names: Seq<(Seq<char>, ValueId)>, name: Seq<char>) -> Option<ValueId>
    decreases names.len(),
{
    if names.len() == 0 {
        None
    } else if names.last().0 == name {
        Some(names.last().1)
    } else {
        bound_in(names.drop_last(), name)
    }
}

/// What each of `list` stands for, or the first that stands for nothing.
pub open spec fn all_bound(names: Seq<(Seq<char>, ValueId)>, list: Seq<Seq<char>>) -> Result<
    Seq<ValueId>,
    Seq<char>,
>
    decreases list.len(),
{
    if list.len() == 0 {
        Ok(Seq::empty())
    } else {
        match all_bound(names, list.drop_last()) {
            Err(name) => Err(name),
            Ok(values) => match bound_in(names, list.last()) {
                Some(value) => Ok(values.push(value)),
                None => Err(list.last()),
            },
        }
    }
}

/// What each of `list` spells.
pub open spec fn spelled(list: Seq<String>) -> Seq<Seq<char>> {
    list.map_values(|s: String| s@)
}

impl View for Scope {
    type V = Seq<(Seq<char>, ValueId)>;

    closed spec fn view(&self) -> Seq<(Seq<char>, ValueId)> {
        self.names@.map_values(|entry: (String, ValueId)| (entry.0@, entry.1))
    }
}

impl Scope {
    /// No names.
    pub fn new() -> (r: Self)
        ensures
            r@ == Seq::<(Seq<char>, ValueId)>::empty(),
    {
        let r = Scope { names: Vec::new() };
        assert(r@ =~= Seq::<(Seq<char>, ValueId)>::empty());
        r
    }

    /// Lets `name` stand for `value`.
    pub fn define_value(&mut self, name: &str, value: ValueId)
        ensures
            final(self)@ == old(self)@.push((name@, value)),
    {
        self.names.push((name.to_owned(), value));
        assert(self@ =~= old(self)@.push((name@, value)));
    }

    /// What `name` stands for.
    pub fn lookup(&self, name: &str) -> (r: Option<ValueId>)
        ensures
            r == bound_in(self@, name@),
    {
        let mut n: usize = self.names.len();
        assert(self@.take(n as int) =~= self@);
        while n > 0
            invariant
                n <= self.names.len(),
                self@.len() == self.names.len(),
                bound_in(self@.take(n as int), name@) == bound_in(self@, name@),
            decreases n,
        {
            let ghost part = self@.take(n as int);
            assert(part.drop_last() =~= self@.take(n - 1));
            assert(part.last() == self@[n - 1]);
            if same(self.names[n - 1].0.as_str(), name) {
                return Some(self.names[n - 1].1);
            }
            n -= 1;
        }
        None
    }

    /// What `name` stands for; an error where it stands for nothing.
    pub fn resolve_value(&self, name: &str) -> (r: Result<ValueId, Error>)
        ensures
            match bound_in(self@, name@) {
                Some(value) => r == Ok::<ValueId, Error>(value),
                None => r is Err && r->Err_0@ == ErrorView::UnknownValueRef(name@),
            },
    {
        match self.lookup(name) {
            Some(value) => Ok(value),
            None => Err(Error::UnknownValueRef(name.to_owned())),
        }
    }

    /// What each of `list` stands for; an error at the first that stands for
    /// nothing.
    pub fn resolve_values(&self, list: &Vec<String>) -> (r: Result<Vec<ValueId>, Error>)
        ensures
            match all_bound(self@, spelled(list@)) {
                Ok(values) => r is Ok && r->Ok_0@ == values,
                Err(name) => r is Err && r->Err_0@ == ErrorView::UnknownValueRef(name),
            },
    {
        let ghost names = spelled(list@);
        let mut values: Vec<ValueId> = Vec::new();
        let mut i: usize = 0;
        assert(names.take(0) =~= Seq::<Seq<char>>::empty());
        while i < list.len()
            invariant
                i <= list.len(),
                names == spelled(list@),
                all_bound(self@, names.take(i as int)) == Ok::<Seq<ValueId>, Seq<char>>(values@),
            decreases list.len() - i,
        {
            let ghost part = names.take(i + 1);
            assert(part.drop_last() =~= names.take(i as int));
            assert(part.last() == list@[i as int]@);
            match self.resolve_value(list[i].as_str()) {
                Ok(value) => {
                    values.push(value);
                },
                Err(e) => {
                    proof {
                        unbound_stays(self@, names, i + 1);
                    }
                    return Err(e);
                },
            }
            i += 1;
        }
        assert(names.take(i as int) =~= names);
        Ok(values)
    }
}

/// A name that stands for nothing is what the longer list fails at too.
proof fn unbound_stays(names: Seq<(Seq<char>, ValueId)>, list: Seq<Seq<char>>, n: int)
    requires
        0 <= n <= list.len(),
        all_bound(names, list.take(n)) is Err,
    ensures
        all_bound(names, list) == all_bound(names, list.take(n)),
    decreases list.len() - n,
{
    if n < list.len() {
        assert(list.take(n + 1).drop_last() =~= list.take(n));
        unbound_stays(names, list, n + 1);
    } else {
        assert(list.take(n) =~= list);
    }
}

/// A name stands for the value it was defined as last.
pub proof fn definitions_shadow(names: Seq<(Seq<char>, ValueId)>, name: Seq<char>, value: ValueId)
    ensures
        bound_in(names.push((name, value)), name) == Some(value),
        forall|other: Seq<char>|
            other != name ==> #[trigger] bound_in(names.push((name, value)), other) == bound_in(
                names,
                other,
            ),
{
    assert(names.push((name, value)).drop_last() =~= names);
}

} // verus!
