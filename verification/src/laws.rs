//! Laws of promises: how the results of combined promises follow from the results
//! of their parts. Each speaks of the sets that the contracts of `Promise`'s
//! methods use.

use vstd::prelude::*;
use crate::{all_results, cloned_results, map_results, then_else_results, then_results, Promise};

verus! {

/// `map()` passes an error through unchanged: a promise rejected with `e`, mapped
/// by any function, is still rejected with `e`.
pub proof fn law_map_passes_errors<T, E, R, F: FnOnce(T) -> Result<R, E>>(e: E, f: F)
    ensures
        map_results(Set::<Result<T, E>>::empty().insert(Err(e)), f) == Set::<Result<R, E>>::empty().insert(Err(e)),
{
    let s = Set::<Result<T, E>>::empty().insert(Err(e));
    assert forall|r: Result<R, E>| #[trigger] map_results(s, f).contains(r) <==> r == Err::<R, E>(e) by {
        if r == Err::<R, E>(e) {
            assert(s.contains(Err(e)));
        }
    }
    assert(map_results(s, f) =~= Set::<Result<R, E>>::empty().insert(Err(e)));
}

/// `map()` of a fulfilled promise resolves to what the function returns for its
/// value.
pub proof fn law_map_of_fulfilled<T, E, R, F: FnOnce(T) -> Result<R, E>>(v: T, f: F)
    ensures
        map_results(Set::<Result<T, E>>::empty().insert(Ok(v)), f) == Set::new(|r: Result<R, E>| call_ensures(f, (v,), r)),
{
    let s = Set::<Result<T, E>>::empty().insert(Ok(v));
    assert forall|r: Result<R, E>| #[trigger] map_results(s, f).contains(r) <==> call_ensures(f, (v,), r) by {
        if call_ensures(f, (v,), r) {
            assert(s.contains(Ok(v)));
        }
    }
    assert(map_results(s, f) =~= Set::new(|r: Result<R, E>| call_ensures(f, (v,), r)));
}

/// `and_then()` passes an error through unchanged, without calling the function.
pub proof fn law_then_passes_errors<T, E, T1, F: FnOnce(T) -> Promise<T1, E>>(e: E, f: F)
    ensures
        then_results(Set::<Result<T, E>>::empty().insert(Err(e)), f) == Set::<Result<T1, E>>::empty().insert(Err(e)),
{
    let s = Set::<Result<T, E>>::empty().insert(Err(e));
    assert forall|r: Result<T1, E>| #[trigger] then_results(s, f).contains(r) <==> r == Err::<T1, E>(e) by {
        if r == Err::<T1, E>(e) {
            assert(s.contains(Err(e)));
        }
    }
    assert(then_results(s, f) =~= Set::<Result<T1, E>>::empty().insert(Err(e)));
}

/// `and_then()` of a fulfilled promise resolves as the promise that the function
/// returns for its value.
pub proof fn law_then_of_fulfilled<T, E, T1, F: FnOnce(T) -> Promise<T1, E>>(v: T, f: F)
    ensures
        then_results(Set::<Result<T, E>>::empty().insert(Ok(v)), f) == Set::new(|r: Result<T1, E>|
            exists|p: Promise<T1, E>| call_ensures(f, (v,), p) && #[trigger] p.outcomes().contains(r)),
{
    let s = Set::<Result<T, E>>::empty().insert(Ok(v));
    let target = Set::new(|r: Result<T1, E>| exists|p: Promise<T1, E>| call_ensures(f, (v,), p) && #[trigger] p.outcomes().contains(r));
    assert forall|r: Result<T1, E>| #[trigger] then_results(s, f).contains(r) <==> target.contains(r) by {
        if target.contains(r) {
            assert(s.contains(Ok(v)));
        }
        if then_results(s, f).contains(r) {
            let x = choose|x: Result<T, E>| s.contains(x) && match x {
                Ok(w) => exists|p: Promise<T1, E>| call_ensures(f, (w,), p) && #[trigger] p.outcomes().contains(r),
                Err(e) => r == Err::<T1, E>(e),
            };
            assert(x == Ok::<T, E>(v));
        }
    }
    assert(then_results(s, f) =~= target);
}

/// `then_else()` of a promise that is already resolved resolves as the promise
/// that the function returns for its result.
pub proof fn law_then_else_of_resolved<T, E, T1, E1, F: FnOnce(Result<T, E>) -> Promise<T1, E1>>(x: Result<T, E>, f: F)
    ensures
        then_else_results(Set::<Result<T, E>>::empty().insert(x), f) == Set::new(|r: Result<T1, E1>|
            exists|p: Promise<T1, E1>| call_ensures(f, (x,), p) && #[trigger] p.outcomes().contains(r)),
{
    let s = Set::<Result<T, E>>::empty().insert(x);
    let target = Set::new(|r: Result<T1, E1>| exists|p: Promise<T1, E1>| call_ensures(f, (x,), p) && #[trigger] p.outcomes().contains(r));
    assert forall|r: Result<T1, E1>| #[trigger] then_else_results(s, f).contains(r) <==> target.contains(r) by {
        if target.contains(r) {
            let p = choose|p: Promise<T1, E1>| call_ensures(f, (x,), p) && #[trigger] p.outcomes().contains(r);
            assert(s.contains(x));
        }
    }
    assert(then_else_results(s, f) =~= target);
}

/// `all()` of no promises resolves to the empty vector, and to nothing else.
pub proof fn law_all_of_none<T, E>()
    ensures
        forall|r: Result<Vec<T>, E>| #[trigger] all_results(Seq::<Set<Result<T, E>>>::empty()).contains(r) <==>
            (r matches Ok(vs) && vs@.len() == 0),
{
}

/// `all()` fails with the error of any of its promises.
pub proof fn law_all_fails_with_any_error<T, E>(parts: Seq<Set<Result<T, E>>>, i: int, e: E)
    requires
        0 <= i < parts.len(),
        parts[i].contains(Err(e)),
    ensures
        all_results(parts).contains(Err(e)),
{
    let r = Err::<Vec<T>, E>(e);
    assert(r->Err_0 == e);
}

/// The results of promises fulfilled with `values`.
pub open spec fn fulfilled_parts<T, E>(values: Seq<T>) -> Seq<Set<Result<T, E>>> {
    values.map_values(|v: T| Set::<Result<T, E>>::empty().insert(Ok(v)))
}

/// `all()` of fulfilled promises resolves to the vector of their values, in order,
/// and to nothing else.
pub proof fn law_all_of_fulfilled<T, E>(values: Seq<T>)
    ensures
        forall|r: Result<Vec<T>, E>| #[trigger] all_results(fulfilled_parts::<T, E>(values)).contains(r) <==>
            (r matches Ok(vs) && vs@ == values),
{
    let parts = fulfilled_parts::<T, E>(values);
    assert forall|r: Result<Vec<T>, E>| #[trigger] all_results(parts).contains(r) <==> (r matches Ok(vs) && vs@ == values) by {
        match r {
            Ok(vs) => {
                if all_results(parts).contains(r) {
                    assert forall|i: int| 0 <= i < values.len() implies vs@[i] == values[i] by {
                        assert(parts[i].contains(Ok(vs@[i])));
                    }
                    assert(vs@ =~= values);
                }
                if vs@ == values {
                    assert forall|i: int| 0 <= i < parts.len() implies #[trigger] parts[i].contains(Ok(vs@[i])) by {}
                }
            },
            Err(e) => {
                if all_results(parts).contains(r) {
                    assert(r->Err_0 == e);
                    let i = choose|i: int| 0 <= i < parts.len() && #[trigger] parts[i].contains(Err(e));
                    assert(parts[i].contains(Err(e)));
                }
            },
        }
    }
}

/// A branch of a forked promise of integers can only resolve to a result of the
/// forked promise itself: cloning an integer copies it.
pub proof fn law_branch_of_integers_is_the_result(results: Set<Result<u64, u64>>)
    ensures
        cloned_results(results).subset_of(results),
{
    assert forall|r: Result<u64, u64>| #[trigger] cloned_results(results).contains(r) implies results.contains(r) by {
        let x = choose|x: Result<u64, u64>| #[trigger] results.contains(x) && match (x, r) {
            (Ok(v), Ok(w)) => vstd::pervasive::strictly_cloned(v, w),
            (Err(e), Err(e1)) => vstd::pervasive::strictly_cloned(e, e1),
            _ => false,
        };
        assert(x == r);
    }
}

} // verus!
