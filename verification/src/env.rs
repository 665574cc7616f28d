//! The compiler's environments, held in persistent hash maps of the `im`
//! crate: the stack offset of each variable, and the number of parameters of
//! each function.
use vstd::prelude::*;

verus! {

#[verifier::external_type_specification]
#[verifier::external_body]
#[verifier::reject_recursive_types(K)]
#[verifier::reject_recursive_types(V)]
#[verifier::reject_recursive_types(S)]
pub struct ExImHashMap<K, V, S>(im::HashMap<K, V, S>);

/// The contents of a variable environment: each name to its offset from `rbp`.
pub uninterp spec fn slots(m: im::HashMap<String, i32>) -> Map<Seq<char>, i32>;

/// The contents of a function table: each name to its number of parameters.
pub uninterp spec fn arities(m: im::HashMap<String, usize>) -> Map<Seq<char>, usize>;

/// `im::HashMap::new`: an empty map.
#[verifier::external_body]
pub(crate) fn slots_new() -> (r: im::HashMap<String, i32>)
    ensures
        slots(r) =~= Map::empty(),
{
    im::HashMap::new()
}

/// `im::HashMap::get`, copied out: the offset of a name, where it has one.
#[verifier::external_body]
pub(crate) fn slots_get(m: &im::HashMap<String, i32>, k: &String) -> (r: Option<i32>)
    ensures
        r == (if slots(*m).contains_key(k@) {
            Some(slots(*m)[k@])
        } else {
            None
        }),
{
    m.get(k).copied()
}

/// `im::HashMap::update`: a new map with `k` bound to `v`; `m` is unchanged.
#[verifier::external_body]
pub(crate) fn slots_update(m: &im::HashMap<String, i32>, k: String, v: i32) -> (r: im::HashMap<
    String,
    i32,
>)
    ensures
        slots(r) == slots(*m).insert(k@, v),
{
    m.update(k, v)
}

/// `im::HashMap::insert`: binds `k` to `v` in place.
#[verifier::external_body]
pub(crate) fn slots_insert(m: &mut im::HashMap<String, i32>, k: String, v: i32)
    ensures
        slots(*final(m)) == slots(*old(m)).insert(k@, v),
{
    m.insert(k, v);
}

/// `Clone::clone` of an `im::HashMap`: a map with the same contents.
#[verifier::external_body]
pub(crate) fn slots_clone(m: &im::HashMap<String, i32>) -> (r: im::HashMap<String, i32>)
    ensures
        slots(r) == slots(*m),
{
    m.clone()
}

/// `im::HashMap::new`: an empty function table.
#[verifier::external_body]
pub(crate) fn arities_new() -> (r: im::HashMap<String, usize>)
    ensures
        arities(r) =~= Map::empty(),
{
    im::HashMap::new()
}

/// `im::HashMap::get`, copied out: the arity of a name, where it has one.
#[verifier::external_body]
pub(crate) fn arities_get(m: &im::HashMap<String, usize>, k: &String) -> (r: Option<usize>)
    ensures
        r == (if arities(*m).contains_key(k@) {
            Some(arities(*m)[k@])
        } else {
            None
        }),
{
    m.get(k).copied()
}

/// `im::HashMap::contains_key`.
#[verifier::external_body]
pub(crate) fn arities_contains(m: &im::HashMap<String, usize>, k: &String) -> (r: bool)
    ensures
        r == arities(*m).contains_key(k@),
{
    m.contains_key(k)
}

/// `im::HashMap::insert`: binds `k` to `v` in place.
#[verifier::external_body]
pub(crate) fn arities_insert(m: &mut im::HashMap<String, usize>, k: String, v: usize)
    ensures
        arities(*final(m)) == arities(*old(m)).insert(k@, v),
{
    m.insert(k, v);
}

} // verus!
