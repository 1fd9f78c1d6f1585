//! What values are bound to while a program runs.
use std::collections::HashMap;
use vstd::prelude::*;
use crate::context::Context;
use crate::context::ContextView;
use crate::ids::ValueId;
use crate::interp::gives;
use crate::interp::message;
use crate::interp::value_view;
use crate::interp::value_views;
use crate::interp::InterpError;
use crate::interp::InterpErrorView;
use crate::interp::Value;
use crate::interp::ValueView;
use crate::text::cat3;
use crate::text::decimal;
use crate::text::decimal_string;

verus! {

broadcast use vstd::std_specs::hash::group_hash_axioms;

/// What values are bound to.
pub type EnvView = Map<ValueId, ValueView>;

/// What values are bound to, by the number of the value.
pub struct Env {
    bound: HashMap<u32, Value>,
}

/// What the bindings by number say of values.
pub closed spec fn by_value(bound: Map<u32, Value>) -> EnvView {
    Map::new(
        |id: ValueId| bound.contains_key(id.0),
        |id: ValueId| value_view(bound[id.0]),
    )
}

impl View for Env {
    type V = EnvView;

    closed spec fn view(&self) -> EnvView {
        by_value(self.bound@)
    }
}

impl Env {
    /// Nothing bound.
    pub fn new() -> (r: Self)
        ensures
            r@ == Map::<ValueId, ValueView>::empty(),
    {
        let r = Env { bound: HashMap::new() };
        assert(r@ =~= Map::<ValueId, ValueView>::empty());
        r
    }

    /// What `id` is bound to.
    pub fn get(&self, id: ValueId) -> (r: Option<Value>)
        ensures
            match r {
                Some(value) => self@.contains_key(id) && self@[id] == value@,
                None => !self@.contains_key(id),
            },
    {
        match self.bound.get(&id.0) {
            Some(value) => Some(value.copy()),
            None => None,
        }
    }

    /// Binds `id` to `value`, whatever it was bound to.
    pub fn put(&mut self, id: ValueId, value: Value)
        ensures
            final(self)@ == old(self)@.insert(id, value@),
    {
        self.bound.insert(id.0, value);
        proof {
            let after = old(self)@.insert(id, value@);
            assert forall|v: ValueId| self@.contains_key(v) == after.contains_key(v) by {
                assert(v.0 == id.0 ==> v == id);
            }
            assert forall|v: ValueId| self@.contains_key(v) implies self@[v] == after[v] by {
                assert(v.0 == id.0 ==> v == id);
            }
            assert(self@ =~= after);
        }
    }
}

/// The bindings with the first `n` of `ids` bound to the first `n` of `values`.
pub open spec fn bound_to(
    env: EnvView,
    ids: Seq<ValueId>,
    values: Seq<ValueView>,
    n: int,
) -> EnvView
    decreases n,
{
    if n <= 0 {
        env
    } else {
        bound_to(env, ids, values, n - 1).insert(ids[n - 1], values[n - 1])
    }
}

/// How many of `a` and `b` pair up.
pub open spec fn paired(a: nat, b: nat) -> int {
    if a < b {
        a as int
    } else {
        b as int
    }
}

/// The bindings with `ids` bound to `values`, as far as both go.
pub open spec fn with_bound(env: EnvView, ids: Seq<ValueId>, values: Seq<ValueView>) -> EnvView {
    bound_to(env, ids, values, paired(ids.len(), values.len()))
}

impl Env {
    /// Binds `ids` to `values`, as far as both go.
    pub fn bind(&mut self, ids: &Vec<ValueId>, values: &Vec<Value>)
        ensures
            final(self)@ == with_bound(old(self)@, ids@, value_views(values@)),
    {
        let n: usize = if ids.len() < values.len() {
            ids.len()
        } else {
            values.len()
        };
        let ghost start = self@;
        let mut i: usize = 0;
        while i < n
            invariant
                i <= n,
                n <= ids.len(),
                n <= values.len(),
                self@ == bound_to(start, ids@, value_views(values@), i as int),
            decreases n - i,
        {
            assert(value_views(values@)[i as int] == values@[i as int]@);
            self.put(ids[i], values[i].copy());
            i += 1;
        }
    }

    /// Which of `ids` are bound, each with what it is bound to.
    pub fn bindings_of(&self, ids: &Vec<ValueId>) -> (r: Vec<(ValueId, Value)>)
        ensures
            pair_views(r@) == bindings_of(self@, ids@),
    {
        let mut r: Vec<(ValueId, Value)> = Vec::new();
        let mut i: usize = 0;
        assert(pair_views(r@) =~= bindings_of(self@, ids@.take(0)));
        while i < ids.len()
            invariant
                i <= ids.len(),
                pair_views(r@) == bindings_of(self@, ids@.take(i as int)),
            decreases ids.len() - i,
        {
            let ghost seen = r@;
            assert(ids@.take(i + 1).drop_last() =~= ids@.take(i as int));
            if let Some(value) = self.get(ids[i]) {
                r.push((ids[i], value));
                assert(pair_views(r@) =~= pair_views(seen).push((ids@[i as int], value@)));
            }
            i += 1;
        }
        assert(ids@.take(i as int) =~= ids@);
        r
    }

    /// Puts bindings back.
    pub fn restore(&mut self, saved: &Vec<(ValueId, Value)>)
        ensures
            final(self)@ == restored(old(self)@, pair_views(saved@), saved@.len() as int),
    {
        let ghost start = self@;
        let mut i: usize = 0;
        while i < saved.len()
            invariant
                i <= saved.len(),
                self@ == restored(start, pair_views(saved@), i as int),
            decreases saved.len() - i,
        {
            assert(pair_views(saved@)[i as int] == (saved@[i as int].0, saved@[i as int].1@));
            self.put(saved[i].0, saved[i].1.copy());
            i += 1;
        }
    }
}

/// What each of `pairs` says.
pub open spec fn pair_views(pairs: Seq<(ValueId, Value)>) -> Seq<(ValueId, ValueView)> {
    pairs.map_values(|p: (ValueId, Value)| (p.0, value_view(p.1)))
}

/// Which of `ids` are bound, each with what it is bound to.
pub open spec fn bindings_of(env: EnvView, ids: Seq<ValueId>) -> Seq<(ValueId, ValueView)>
    decreases ids.len(),
{
    if ids.len() == 0 {
        Seq::empty()
    } else if env.contains_key(ids.last()) {
        bindings_of(env, ids.drop_last()).push((ids.last(), env[ids.last()]))
    } else {
        bindings_of(env, ids.drop_last())
    }
}

/// The bindings with the first `n` of `saved` put back.
pub open spec fn restored(env: EnvView, saved: Seq<(ValueId, ValueView)>, n: int) -> EnvView
    decreases n,
{
    if n <= 0 {
        env
    } else {
        restored(env, saved, n - 1).insert(saved[n - 1].0, saved[n - 1].1)
    }
}

/// The λ that defines `id`, which needs no binding: it is a constant of the
/// program.
pub open spec fn lambda(context: ContextView, id: ValueId) -> Option<ValueView> {
    match context.ir.value(id) {
        Some(entry) => match entry.value.defining_op {
            Some(op) => if context.readable(op) && context.is_op(op, "func"@, "func"@) {
                Some(ValueView::Function(op))
            } else {
                None
            },
            None => None,
        },
        None => None,
    }
}

/// What `id` is: what it is bound to, or the λ it names.
pub open spec fn value_of(context: ContextView, env: EnvView, id: ValueId) -> Result<
    ValueView,
    InterpErrorView,
> {
    if env.contains_key(id) {
        Ok(env[id])
    } else {
        match lambda(context, id) {
            Some(value) => Ok(value),
            None => Err(
                InterpErrorView::Message(
                    "value %"@ + decimal(id.0 as nat) + " used before it is defined"@,
                ),
            ),
        }
    }
}

/// What each of `ids` is, or why the first that is nothing is not.
pub open spec fn values_of(context: ContextView, env: EnvView, ids: Seq<ValueId>) -> Result<
    Seq<ValueView>,
    InterpErrorView,
>
    decreases ids.len(),
{
    if ids.len() == 0 {
        Ok(Seq::empty())
    } else {
        match values_of(context, env, ids.drop_last()) {
            Ok(values) => match value_of(context, env, ids.last()) {
                Ok(value) => Ok(values.push(value)),
                Err(e) => Err(e),
            },
            Err(e) => Err(e),
        }
    }
}

impl Env {
    /// What `id` is: what it is bound to, or the λ it names.
    pub fn value_of(&self, context: &Context, id: ValueId) -> (r: Result<Value, InterpError>)
        requires
            context.inv(),
            context@.sound(),
        ensures
            gives(r, value_of(context@, self@, id), |v: Value| v@),
    {
        if let Some(value) = self.get(id) {
            return Ok(value);
        }
        if context.has_value(id) {
            if let Some(op) = context.get_value(id).defining_op {
                if context.has_operation(op) {
                    assert(context@.op_sound(op));
                    if context.get_op(op).is_name(context, "func", "func") {
                        return Ok(Value::Function(op));
                    }
                }
            }
        }
        let text = cat3(
            "value %",
            decimal_string(id.0 as u64).as_str(),
            " used before it is defined",
        );
        Err(message(text.as_str()))
    }

    /// What each of `ids` is, or why the first that is nothing is not.
    pub fn values_of(&self, context: &Context, ids: &Vec<ValueId>) -> (r: Result<
        Vec<Value>,
        InterpError,
    >)
        requires
            context.inv(),
            context@.sound(),
        ensures
            gives(r, values_of(context@, self@, ids@), |v: Vec<Value>| value_views(v@)),
    {
        let mut r: Vec<Value> = Vec::new();
        let mut i: usize = 0;
        assert(value_views(r@) =~= Seq::<ValueView>::empty());
        while i < ids.len()
            invariant
                context.inv(),
                context@.sound(),
                i <= ids.len(),
                values_of(context@, self@, ids@.take(i as int)) == Ok::<
                    Seq<ValueView>,
                    InterpErrorView,
                >(value_views(r@)),
            decreases ids.len() - i,
        {
            let ghost seen = value_views(r@);
            assert(ids@.take(i + 1).drop_last() =~= ids@.take(i as int));
            match self.value_of(context, ids[i]) {
                Ok(value) => {
                    r.push(value);
                    assert(value_views(r@) =~= seen.push(value@));
                },
                Err(e) => {
                    proof {
                        still_unbound(context@, self@, ids@, i as int);
                    }
                    return Err(e);
                },
            }
            i += 1;
        }
        assert(ids@.take(i as int) =~= ids@);
        Ok(r)
    }
}

proof fn still_unbound(context: ContextView, env: EnvView, ids: Seq<ValueId>, i: int)
    requires
        0 <= i < ids.len(),
        values_of(context, env, ids.take(i)) is Ok,
        value_of(context, env, ids[i]) is Err,
    ensures
        values_of(context, env, ids) is Err,
        values_of(context, env, ids)->Err_0 == value_of(context, env, ids[i])->Err_0,
    decreases ids.len(),
{
    if i == ids.len() - 1 {
        assert(ids.drop_last() =~= ids.take(i));
    } else {
        assert(ids.drop_last().take(i) =~= ids.take(i));
        still_unbound(context, env, ids.drop_last(), i);
    }
}

/// A value bound before a set of bindings is saved is bound to the same after it
/// is put back, whatever was bound in between.
pub proof fn restoring_brings_back(
    before: EnvView,
    between: EnvView,
    ids: Seq<ValueId>,
    id: ValueId,
)
    requires
        ids.contains(id),
        before.contains_key(id),
    ensures
        ({
            let saved = bindings_of(before, ids);
            let after = restored(between, saved, saved.len() as int);
            after.contains_key(id) && after[id] == before[id]
        }),
    decreases ids.len(),
{
    let saved = bindings_of(before, ids);
    let rest = ids.drop_last();
    let last = ids.last();
    if before.contains_key(last) {
        let fewer = bindings_of(before, rest);
        assert(saved =~= fewer.push((last, before[last])));
        restored_part(between, fewer, saved, fewer.len() as int);
        if last != id {
            let k = choose|k: int| 0 <= k < ids.len() && ids[k] == id;
            assert(rest[k] == id);
            restoring_brings_back(before, between, rest, id);
        }
    } else {
        let k = choose|k: int| 0 <= k < ids.len() && ids[k] == id;
        assert(rest[k] == id);
        restoring_brings_back(before, between, rest, id);
    }
}

proof fn restored_part(
    env: EnvView,
    a: Seq<(ValueId, ValueView)>,
    b: Seq<(ValueId, ValueView)>,
    n: int,
)
    requires
        n <= a.len() <= b.len(),
        a =~= b.take(a.len() as int),
    ensures
        restored(env, a, n) == restored(env, b, n),
    decreases n,
{
    if n > 0 {
        restored_part(env, a, b, n - 1);
        assert(a[n - 1] == b[n - 1]);
    }
}

} // verus!
