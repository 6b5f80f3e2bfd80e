//! Gathering the outcomes of several attempts into one.
use vstd::prelude::*;

verus! {

/// The values of the attempts that succeeded, in order.
pub open spec fn values_of<T, E>(items: Seq<Result<T, E>>) -> Seq<T>
    decreases items.len(),
{
    if items.len() == 0 {
        Seq::empty()
    } else {
        match items.last() {
            Ok(value) => values_of(items.drop_last()).push(value),
            Err(_) => values_of(items.drop_last()),
        }
    }
}

/// The errors of the attempts that failed, in order.
pub open spec fn errors_of<T, E>(items: Seq<Result<T, E>>) -> Seq<E>
    decreases items.len(),
{
    if items.len() == 0 {
        Seq::empty()
    } else {
        match items.last() {
            Ok(_) => errors_of(items.drop_last()),
            Err(error) => errors_of(items.drop_last()).push(error),
        }
    }
}

/// Every attempt is counted once: as a value or as an error.
pub proof fn lemma_values_and_errors_len<T, E>(items: Seq<Result<T, E>>)
    ensures
        values_of(items).len() + errors_of(items).len() == items.len(),
    decreases items.len(),
{
    if items.len() != 0 {
        lemma_values_and_errors_len(items.drop_last());
    }
}

/// Where no attempt failed, the values are those of the attempts, one for
/// one.
pub proof fn lemma_values_of_all_ok<T, E>(items: Seq<Result<T, E>>)
    requires
        errors_of(items).len() == 0,
    ensures
        values_of(items).len() == items.len(),
        forall|i: int| 0 <= i < items.len() ==> #[trigger] items[i] == Ok::<T, E>(values_of(items)[i]),
    decreases items.len(),
{
    if items.len() != 0 {
        lemma_values_and_errors_len(items);
        lemma_values_of_all_ok(items.drop_last());
        assert forall|i: int| 0 <= i < items.len() implies #[trigger] items[i] == Ok::<T, E>(
            values_of(items)[i],
        ) by {
            if i < items.len() - 1 {
                assert(items.drop_last()[i] == items[i]);
            }
        }
    }
}

/// Moves the items into a vector in the opposite order.
fn reversed<T>(items: Vec<T>) -> (forward: Vec<T>)
    ensures
        forward@ == items@.reverse(),
{
    let ghost all = items@;
    let mut rest = items;
    let mut forward: Vec<T> = Vec::new();
    while rest.len() > 0
        invariant
            rest@ == all.take(rest@.len() as int),
            rest@.len() <= all.len(),
            forward@ == all.reverse().take(all.len() - rest@.len()),
        decreases rest.len(),
    {
        let ghost before = forward@;
        let item = rest.pop().unwrap();
        forward.push(item);
        proof {
            let k = all.len() - rest@.len();
            assert(forward@ =~= all.reverse().take(k));
            assert(rest@ =~= all.take(rest@.len() as int));
        }
    }
    proof {
        assert(forward@ =~= all.reverse());
    }
    forward
}

/// Gathers the attempts into one outcome: the values of all of them where
/// none failed, and otherwise the errors of all that failed. Either way the
/// order of the attempts is kept.
pub fn try_collect<T, E>(items: Vec<Result<T, E>>) -> (collected: Result<Vec<T>, Vec<E>>)
    ensures
        match collected {
            Ok(values) => errors_of(items@).len() == 0 && values@ == values_of(items@),
            Err(errors) => errors@.len() > 0 && errors@ == errors_of(items@),
        },
{
    let ghost all = items@;
    let mut rest = items;
    let mut values: Vec<T> = Vec::new();
    let mut errors: Vec<E> = Vec::new();
    while rest.len() > 0
        invariant
            values_of(all) == values_of(rest@) + values@.reverse(),
            errors_of(all) == errors_of(rest@) + errors@.reverse(),
        decreases rest.len(),
    {
        let ghost before = rest@;
        let ghost values_before = values@;
        let ghost errors_before = errors@;
        let item = rest.pop().unwrap();
        proof {
            assert(rest@ == before.drop_last());
            assert(item == before.last());
        }
        match item {
            Ok(value) => {
                values.push(value);
                proof {
                    assert(values@.reverse() =~= seq![value] + values_before.reverse());
                    assert(values_of(before) + values_before.reverse() =~= values_of(rest@)
                        + values@.reverse());
                }
            },
            Err(error) => {
                errors.push(error);
                proof {
                    assert(errors@.reverse() =~= seq![error] + errors_before.reverse());
                    assert(errors_of(before) + errors_before.reverse() =~= errors_of(rest@)
                        + errors@.reverse());
                }
            },
        }
    }
    proof {
        assert(values_of(all) =~= values@.reverse());
        assert(errors_of(all) =~= errors@.reverse());
    }
    if errors.len() > 0 {
        Err(reversed(errors))
    } else {
        Ok(reversed(values))
    }
}

/// Gathering commutes with mapping: where each attempt of `mapped` is the
/// attempt of `items` at the same place with `f` applied to its value or `g`
/// to its error, the values and errors of `mapped` are those of `items` with
/// `f` and `g` applied.
pub proof fn lemma_collect_mapped<T, E, T2, E2>(
    items: Seq<Result<T, E>>,
    mapped: Seq<Result<T2, E2>>,
    f: spec_fn(T) -> T2,
    g: spec_fn(E) -> E2,
)
    requires
        items.len() == mapped.len(),
        forall|i: int|
            0 <= i < items.len() ==> #[trigger] mapped[i] == (match items[i] {
                Ok(value) => Ok::<T2, E2>(f(value)),
                Err(error) => Err::<T2, E2>(g(error)),
            }),
    ensures
        values_of(mapped) == values_of(items).map_values(f),
        errors_of(mapped) == errors_of(items).map_values(g),
    decreases items.len(),
{
    if items.len() == 0 {
        assert(values_of(mapped) =~= values_of(items).map_values(f));
        assert(errors_of(mapped) =~= errors_of(items).map_values(g));
    } else {
        lemma_collect_mapped(items.drop_last(), mapped.drop_last(), f, g);
        assert(mapped.last() == mapped[mapped.len() - 1]);
        assert(items.last() == items[items.len() - 1]);
        assert(values_of(mapped) =~= values_of(items).map_values(f));
        assert(errors_of(mapped) =~= errors_of(items).map_values(g));
    }
}

} // verus!
