//! Lists of will identifiers, kept in the host's own vectors.
//!
//! A `soroban_sdk::Vec<u64>` is a handle to a list of values that the host
//! keeps. Its type does not guarantee that every value is a `u64`: a list that
//! came from outside may hold others, which [`is_id_list`] finds out.

use soroban_sdk::Env;
use vstd::prelude::*;

verus! {

/// The host environment, `soroban_sdk::Env`.
#[verifier::external_type_specification]
#[verifier::external_body]
pub struct ExEnv(soroban_sdk::Env);

/// The host's vector, `soroban_sdk::Vec`.
#[verifier::external_type_specification]
#[verifier::external_body]
#[verifier::reject_recursive_types(T)]
pub struct ExVec<T>(soroban_sdk::Vec<T>);

/// What a host vector of identifiers holds, in order: `Some` for a `u64`,
/// `None` for a value that is not one.
pub uninterp spec fn elements(list: soroban_sdk::Vec<u64>) -> Seq<Option<u64>>;

/// Whether every value in `list` is a `u64`.
pub open spec fn holds_ids(list: soroban_sdk::Vec<u64>) -> bool {
    forall|i: int| 0 <= i < elements(list).len() ==> (#[trigger] elements(list)[i]) is Some
}

/// The identifiers in `list`, in order.
pub open spec fn ids_of(list: soroban_sdk::Vec<u64>) -> Seq<u64> {
    Seq::new(elements(list).len(), |i: int| elements(list)[i]->0)
}

/// `soroban_sdk::Vec::new`: a list that holds nothing.
#[verifier::external_body]
fn host_new(env: &Env) -> (list: soroban_sdk::Vec<u64>)
    ensures
        elements(list) == Seq::<Option<u64>>::empty(),
{
    soroban_sdk::Vec::new(env)
}

/// `soroban_sdk::Vec::clone`: a list that holds the same values.
#[verifier::external_body]
fn host_clone(list: &soroban_sdk::Vec<u64>) -> (copy: soroban_sdk::Vec<u64>)
    ensures
        elements(copy) == elements(*list),
{
    list.clone()
}

/// `soroban_sdk::Vec::len`: the number of values.
#[verifier::external_body]
fn host_len(list: &soroban_sdk::Vec<u64>) -> (len: u32)
    ensures
        len == elements(*list).len(),
{
    list.len()
}

/// `soroban_sdk::Vec::try_get`: the value at a position, where there is one
/// and it is a `u64`.
#[verifier::external_body]
fn host_try_get(list: &soroban_sdk::Vec<u64>, i: u32) -> (value: Option<u64>)
    ensures
        i < elements(*list).len() ==> value == elements(*list)[i as int],
        i >= elements(*list).len() ==> value is None,
{
    list.try_get(i).unwrap_or(None)
}

/// `soroban_sdk::Vec::push_back`: one more value at the end. The host counts
/// the values of a list in 32 bits.
#[verifier::external_body]
fn host_push_back(list: &mut soroban_sdk::Vec<u64>, id: u64)
    requires
        elements(*old(list)).len() < u32::MAX,
    ensures
        elements(*final(list)) == elements(*old(list)).push(Some(id)),
{
    list.push_back(id)
}

/// `soroban_sdk::Vec::contains`: whether a value occurs.
#[verifier::external_body]
fn host_contains(list: &soroban_sdk::Vec<u64>, id: u64) -> (found: bool)
    ensures
        found == elements(*list).contains(Some(id)),
{
    list.contains(id)
}

/// `soroban_sdk::Vec::first_index_of`: the first position of a value, where
/// it occurs.
#[verifier::external_body]
fn host_first_index_of(list: &soroban_sdk::Vec<u64>, id: u64) -> (index: Option<u32>)
    ensures
        match index {
            Some(i) => {
                &&& i < elements(*list).len()
                &&& elements(*list)[i as int] == Some(id)
                &&& forall|j: int| 0 <= j < i ==> elements(*list)[j] != Some(id)
            },
            None => !elements(*list).contains(Some(id)),
        },
{
    list.first_index_of(id)
}

/// `soroban_sdk::Vec::remove_unchecked`: the value at a position taken out,
/// the later ones moved up.
#[verifier::external_body]
fn host_remove_unchecked(list: &mut soroban_sdk::Vec<u64>, i: u32)
    requires
        i < elements(*old(list)).len(),
    ensures
        elements(*final(list)) == elements(*old(list)).remove(i as int),
{
    list.remove_unchecked(i)
}

/// Whether every value in `list` is a `u64`.
pub fn is_id_list(list: &soroban_sdk::Vec<u64>) -> (yes: bool)
    ensures
        yes == holds_ids(*list),
{
    let len: u32 = host_len(list);
    for i in 0..len
        invariant
            len == elements(*list).len(),
            forall|j: int| 0 <= j < i ==> (#[trigger] elements(*list)[j]) is Some,
    {
        if host_try_get(list, i).is_none() {
            return false;
        }
    }
    true
}

/// An empty list.
pub(crate) fn new_list(env: &Env) -> (list: soroban_sdk::Vec<u64>)
    ensures
        holds_ids(list),
        ids_of(list) == Seq::<u64>::empty(),
{
    let list = host_new(env);
    assert(ids_of(list) =~= Seq::<u64>::empty());
    list
}

/// A list of the same identifiers.
pub(crate) fn copy_list(list: &soroban_sdk::Vec<u64>) -> (copy: soroban_sdk::Vec<u64>)
    ensures
        holds_ids(copy) == holds_ids(*list),
        ids_of(copy) == ids_of(*list),
{
    host_clone(list)
}

/// The number of identifiers.
pub(crate) fn list_len(list: &soroban_sdk::Vec<u64>) -> (len: u32)
    ensures
        len == ids_of(*list).len(),
{
    host_len(list)
}

/// The identifier at a position.
pub(crate) fn list_get(list: &soroban_sdk::Vec<u64>, i: u32) -> (id: u64)
    requires
        holds_ids(*list),
        i < ids_of(*list).len(),
    ensures
        id == ids_of(*list)[i as int],
{
    match host_try_get(list, i) {
        Some(id) => id,
        None => {
            assert(elements(*list)[i as int] is Some);
            0
        },
    }
}

/// Puts `id` at the end.
pub(crate) fn list_push(list: &mut soroban_sdk::Vec<u64>, id: u64)
    requires
        holds_ids(*old(list)),
        ids_of(*old(list)).len() < u32::MAX,
    ensures
        holds_ids(*final(list)),
        ids_of(*final(list)) == ids_of(*old(list)).push(id),
{
    let ghost before = elements(*list);
    host_push_back(list, id);
    assert forall|i: int| 0 <= i < elements(*list).len() implies (
    #[trigger] elements(*list)[i]) is Some by {
        if i < before.len() {
            assert(before[i] is Some);
        }
    }
    assert(ids_of(*list) =~= ids_of(*old(list)).push(id));
}

/// Whether `id` occurs.
pub(crate) fn list_has(list: &soroban_sdk::Vec<u64>, id: u64) -> (found: bool)
    requires
        holds_ids(*list),
    ensures
        found == ids_of(*list).contains(id),
{
    let found = host_contains(list, id);
    proof {
        lemma_occurs(*list, id);
    }
    found
}

/// Where `id` occurs first, if it does.
pub(crate) fn list_find(list: &soroban_sdk::Vec<u64>, id: u64) -> (at: Option<u32>)
    requires
        holds_ids(*list),
    ensures
        match at {
            Some(i) => {
                &&& ids_of(*list).contains(id)
                &&& i == ids_of(*list).index_of_first(id)->0
                &&& i < ids_of(*list).len()
            },
            None => !ids_of(*list).contains(id),
        },
{
    let ghost ids = ids_of(*list);
    let at = host_first_index_of(list, id);
    proof {
        lemma_occurs(*list, id);
        if let Some(i) = at {
            assert forall|j: int| 0 <= j < i implies ids[j] != id by {
                assert(elements(*list)[j] is Some);
            }
            lemma_first_occurrence(ids, id, i as int);
        }
    }
    at
}

/// Takes out the first occurrence of `id`, and says whether there was one.
pub(crate) fn list_remove_first(list: &mut soroban_sdk::Vec<u64>, id: u64) -> (found: bool)
    requires
        holds_ids(*old(list)),
    ensures
        holds_ids(*final(list)),
        found == ids_of(*old(list)).contains(id),
        ids_of(*final(list)) == without_first(ids_of(*old(list)), id),
{
    let ghost before = elements(*list);
    let ghost ids = ids_of(*list);
    proof {
        lemma_occurs(*list, id);
    }
    match host_first_index_of(list, id) {
        Some(i) => {
            host_remove_unchecked(list, i);
            proof {
                assert forall|j: int| 0 <= j < elements(*list).len() implies (
                #[trigger] elements(*list)[j]) is Some by {
                    assert(before[j] is Some);
                    assert(before[j + 1] is Some);
                }
                assert(ids[i as int] == id);
                assert forall|j: int| 0 <= j < i implies ids[j] != id by {
                    assert(before[j] is Some);
                }
                lemma_first_occurrence(ids, id, i as int);
                assert(ids_of(*list) =~= ids.remove(i as int));
            }
            true
        },
        None => false,
    }
}

/// `ids` without the first occurrence of `id`; unchanged where there is none.
pub open spec fn without_first(ids: Seq<u64>, id: u64) -> Seq<u64> {
    if ids.contains(id) {
        ids.remove(ids.index_of_first(id)->0)
    } else {
        ids
    }
}

/// The first occurrence is where it was found.
proof fn lemma_first_occurrence(ids: Seq<u64>, id: u64, at: int)
    requires
        0 <= at < ids.len(),
        ids[at] == id,
        forall|j: int| 0 <= j < at ==> ids[j] != id,
    ensures
        ids.contains(id),
        ids.index_of_first(id) == Some(at),
        without_first(ids, id) == ids.remove(at),
{
    ids.index_of_first_ensures(id);
    let found = ids.index_of_first(id)->0;
    assert(ids.contains(id));
    assert(found == at);
}

/// An identifier occurs among the values exactly when it occurs among the
/// identifiers.
proof fn lemma_occurs(list: soroban_sdk::Vec<u64>, id: u64)
    requires
        holds_ids(list),
    ensures
        elements(list).contains(Some(id)) == ids_of(list).contains(id),
{
    if elements(list).contains(Some(id)) {
        let i = choose|i: int| 0 <= i < elements(list).len() && elements(list)[i] == Some(id);
        assert(ids_of(list)[i] == id);
    }
    if ids_of(list).contains(id) {
        let i = choose|i: int| 0 <= i < ids_of(list).len() && ids_of(list)[i] == id;
        assert(elements(list)[i] is Some);
        assert(elements(list)[i] == Some(id));
    }
}

} // verus!
