//! Execution contexts: named values with unique names.
use vstd::prelude::*;
use vstd::string::*;
use crate::interp::{ctx_view, render, Datum};
use crate::ledger::{keys_unique, meta_set};
use crate::text::str_eq;

verus! {

/// Sets `k` to `v` in a context with unique names: the pair for `k` is
/// replaced in place, or appended.
pub fn ctx_insert(ctx: &mut Vec<(String, Datum)>, k: &str, v: Datum)
    requires
        keys_unique(ctx_view(old(ctx)@)),
    ensures
        ctx_view(final(ctx)@) == meta_set(ctx_view(old(ctx)@), k@, render(v)),
        keys_unique(ctx_view(final(ctx)@)),
        final(ctx)@.len() >= old(ctx)@.len(),
{
    let ghost m = ctx_view(ctx@);
    let mut i: usize = 0;
    while i < ctx.len()
        invariant
            m == ctx_view(ctx@),
            m == ctx_view(old(ctx)@),
            keys_unique(m),
            i <= ctx@.len(),
            forall|j: int| 0 <= j < i ==> m[j].0 != k@,
        decreases ctx@.len() - i,
    {
        if str_eq(ctx[i].0.as_str(), k) {
            proof {
                assert(m[i as int].0 == k@);
                let c = crate::ledger::key_index(m, k@);
                assert(c == i);
            }
            ctx.set(i, (String::from_str(k), v));
            proof {
                assert(ctx_view(ctx@) =~= m.update(i as int, (k@, render(v))));
                assert(keys_unique(ctx_view(ctx@)));
            }
            return;
        }
        i = i + 1;
    }
    ctx.push((String::from_str(k), v));
    proof {
        assert(ctx_view(ctx@) =~= m.push((k@, render(v))));
    }
}

/// Merging contexts: each pair of `b`, in order, set in `a`.
pub open spec fn merge_ctx(a: Seq<(Seq<char>, Seq<char>)>, b: Seq<(Seq<char>, Seq<char>)>) -> Seq<(Seq<char>, Seq<char>)>
    decreases b.len(),
{
    if b.len() == 0 {
        a
    } else {
        meta_set(merge_ctx(a, b.drop_last()), b.last().0, b.last().1)
    }
}

/// A copy of a context.
pub fn ctx_copy(c: &Vec<(String, Datum)>) -> (r: Vec<(String, Datum)>)
    ensures
        ctx_view(r@) == ctx_view(c@),
{
    let mut r: Vec<(String, Datum)> = Vec::new();
    let mut i: usize = 0;
    while i < c.len()
        invariant
            i <= c@.len(),
            ctx_view(r@) == ctx_view(c@).take(i as int),
        decreases c@.len() - i,
    {
        let name = c[i].0.clone();
        let d = c[i].1.duplicate();
        assert(name@ == c@[i as int].0@);
        assert(render(d) == render(c@[i as int].1));
        let ghost before = r@;
        r.push((name, d));
        proof {
            assert(ctx_view(r@) =~= ctx_view(before).push((c@[i as int].0@, render(c@[i as int].1))));
            assert(ctx_view(c@).take(i + 1) =~= ctx_view(c@).take(i as int).push(ctx_view(c@)[i as int]));
            assert(ctx_view(r@) =~= ctx_view(c@).take(i + 1));
        }
        i = i + 1;
    }
    proof {
        assert(ctx_view(c@).take(c@.len() as int) =~= ctx_view(c@));
    }
    r
}

/// The context `a` with every pair of `b` set in it, in order.
pub fn ctx_merge(a: &Vec<(String, Datum)>, b: &Vec<(String, Datum)>) -> (r: Vec<(String, Datum)>)
    requires
        keys_unique(ctx_view(a@)),
    ensures
        ctx_view(r@) == merge_ctx(ctx_view(a@), ctx_view(b@)),
        keys_unique(ctx_view(r@)),
{
    let mut r = ctx_copy(a);
    let mut i: usize = 0;
    proof {
        assert(ctx_view(b@).take(0) =~= Seq::<(Seq<char>, Seq<char>)>::empty());
    }
    while i < b.len()
        invariant
            i <= b@.len(),
            keys_unique(ctx_view(r@)),
            ctx_view(r@) == merge_ctx(ctx_view(a@), ctx_view(b@).take(i as int)),
        decreases b@.len() - i,
    {
        proof {
            assert(ctx_view(b@).take(i + 1).drop_last() =~= ctx_view(b@).take(i as int));
        }
        ctx_insert(&mut r, b[i].0.as_str(), b[i].1.duplicate());
        i = i + 1;
    }
    proof {
        assert(ctx_view(b@).take(b@.len() as int) =~= ctx_view(b@));
    }
    r
}

} // verus!
