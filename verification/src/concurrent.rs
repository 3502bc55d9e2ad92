//! Maps that tasks share, kept in `dashmap::DashMap`, and the semaphores of tokio.
//!
//! A `DashMap` can be changed through a shared reference. Here it is only changed
//! through an exclusive one, so that what it holds is known. How many permits of a
//! semaphore are free, and how many places share it, changes as tasks go on: only
//! what can be found at a time is spoken of.

use vstd::prelude::*;
use dashmap::DashMap;
use std::hash::RandomState;
use std::sync::Arc;
use tokio::sync::{OwnedSemaphorePermit, Semaphore};

verus! {

#[verifier::external_type_specification]
#[verifier::external_body]
#[verifier::reject_recursive_types(K)]
#[verifier::reject_recursive_types(V)]
#[verifier::reject_recursive_types(S)]
pub struct ExDashMap<K, V, S>(dashmap::DashMap<K, V, S>);

/// The numbers that a map holds, by text.
pub uninterp spec fn numbers(m: DashMap<String, u64, RandomState>) -> Map<Seq<char>, u64>;

/// `DashMap::new`: a map that holds nothing.
#[verifier::external_body]
pub(crate) fn new_numbers() -> (r: DashMap<String, u64, RandomState>)
    ensures
        (numbers(r) == Map::<Seq<char>, u64>::empty()),
{
    DashMap::new()
}

/// `DashMap::get`: the number of a text, if there is one.
#[verifier::external_body]
pub(crate) fn number_of(m: &DashMap<String, u64, RandomState>, key: &str) -> (r: Option<u64>)
    ensures
        match r {
            Some(v) => numbers(*m).contains_key(key@) && v == numbers(*m)[key@],
            None => !numbers(*m).contains_key(key@),
        },
{
    m.get(key).map(|v| *v)
}

/// `DashMap::insert`: gives a text a number in place of the one that it had.
#[verifier::external_body]
pub(crate) fn set_number(m: &mut DashMap<String, u64, RandomState>, key: String, value: u64)
    ensures
        numbers(*final(m)) == numbers(*old(m)).insert(key@, value),
{
    let _ = m.insert(key, value);
}

/// `DashMap::remove`: takes a text and its number out.
#[verifier::external_body]
pub(crate) fn remove_number(m: &mut DashMap<String, u64, RandomState>, key: &str)
    ensures
        numbers(*final(m)) == numbers(*old(m)).remove(key@),
{
    let _ = m.remove(key);
}

/// `DashMap::iter`: the texts that have a number, each once, in no stated order.
#[verifier::external_body]
pub(crate) fn numbered(m: &DashMap<String, u64, RandomState>) -> (r: Vec<String>)
    ensures
        forall|k: Seq<char>| #[trigger]
            numbers(*m).contains_key(k) == (exists|i: int|
                0 <= i < r@.len() && (#[trigger] r@[i])@ == k),
        forall|i: int, j: int| 0 <= i < j < r@.len() ==> (#[trigger] r@[i])@ != (#[trigger] r@[j])@,
{
    m.iter().map(|e| e.key().clone()).collect()
}

/// The texts that a map holds, by pairs of texts.
pub uninterp spec fn texts(m: DashMap<(String, String), String, RandomState>) -> Map<
    (Seq<char>, Seq<char>),
    Seq<char>,
>;

/// `DashMap::new`: a map that holds nothing.
#[verifier::external_body]
pub(crate) fn new_texts() -> (r: DashMap<(String, String), String, RandomState>)
    ensures
        (texts(r) == Map::<(Seq<char>, Seq<char>), Seq<char>>::empty()),
{
    DashMap::new()
}

/// `DashMap::get`: the text of a pair, if there is one.
#[verifier::external_body]
pub(crate) fn text_of(
    m: &DashMap<(String, String), String, RandomState>,
    key: &(String, String),
) -> (r: Option<String>)
    ensures
        match r {
            Some(v) => texts(*m).contains_key((key.0@, key.1@)) && v@ == texts(*m)[(key.0@, key.1@)],
            None => !texts(*m).contains_key((key.0@, key.1@)),
        },
{
    m.get(key).map(|v| v.clone())
}

/// `DashMap::insert`: gives a pair a text in place of the one that it had.
#[verifier::external_body]
pub(crate) fn set_text(
    m: &mut DashMap<(String, String), String, RandomState>,
    key: (String, String),
    value: String,
)
    ensures
        texts(*final(m)) == texts(*old(m)).insert((key.0@, key.1@), value@),
{
    let _ = m.insert(key, value);
}

/// `DashMap::remove`: takes a pair and its text out.
#[verifier::external_body]
pub(crate) fn remove_text(
    m: &mut DashMap<(String, String), String, RandomState>,
    key: &(String, String),
)
    ensures
        texts(*final(m)) == texts(*old(m)).remove((key.0@, key.1@)),
{
    let _ = m.remove(key);
}

/// `DashMap::iter`: the pairs that have a text, in no stated order.
#[verifier::external_body]
pub(crate) fn pairs(m: &DashMap<(String, String), String, RandomState>) -> (r: Vec<
    (String, String),
>)
    ensures
        forall|k: (Seq<char>, Seq<char>)| #[trigger]
            texts(*m).contains_key(k) == (exists|i: int|
                0 <= i < r@.len() && ((#[trigger] r@[i]).0@, r@[i].1@) == k),
{
    m.iter().map(|e| e.key().clone()).collect()
}

#[verifier::external_type_specification]
#[verifier::external_body]
pub struct ExSemaphore(Semaphore);

#[verifier::external_type_specification]
#[verifier::external_body]
pub struct ExOwnedSemaphorePermit(OwnedSemaphorePermit);

/// How many permits a semaphore was made with.
pub uninterp spec fn capacity(permits: Semaphore) -> usize;

/// The semaphore that a permit was taken from.
pub uninterp spec fn source(permit: OwnedSemaphorePermit) -> Semaphore;

/// Whether a semaphore can be found to have so many free permits.
pub uninterp spec fn can_be_free(permits: Semaphore, free: usize) -> bool;

/// Whether a semaphore can be found to be shared by so many places.
pub uninterp spec fn can_be_shared(permits: Semaphore, places: usize) -> bool;

/// `tokio::sync::Semaphore::new`: a semaphore with as many permits. It panics
/// where there are more than an eighth of what a `usize` holds.
#[verifier::external_body]
pub(crate) fn new_semaphore(permits: usize) -> (r: Semaphore)
    requires
        permits <= usize::MAX / 8,
    ensures
        capacity(r) == permits,
{
    Semaphore::new(permits)
}

/// `tokio::sync::Semaphore::try_acquire_owned`: a permit of the semaphore, if one is
/// free; it is given back when it is dropped. Whether one is free depends on the
/// other tasks.
#[verifier::external_body]
pub(crate) fn take_permit(permits: Arc<Semaphore>) -> (r: Option<OwnedSemaphorePermit>)
    ensures
        match r {
            Some(permit) => source(permit) == *permits,
            None => true,
        },
{
    permits.try_acquire_owned().ok()
}

/// `tokio::sync::Semaphore::available_permits`: how many permits are free just
/// now.
#[verifier::external_body]
fn free_permits(permits: &Semaphore) -> (r: usize)
    ensures
        can_be_free(*permits, r),
{
    permits.available_permits()
}

/// `std::sync::Arc::strong_count`: how many places share a semaphore just now.
#[verifier::external_body]
fn places(permits: &Arc<Semaphore>) -> (r: usize)
    ensures
        can_be_shared(**permits, r),
{
    Arc::strong_count(permits)
}

/// Whether a semaphore is in use that is shared by so many places, the map that it
/// is kept in among them, and that has so many free permits of `limit`.
pub fn in_use(places: usize, free: usize, limit: usize) -> (r: bool)
    ensures
        r == (places > 1 || free < limit),
{
    places > 1 || free < limit
}

/// Whether a semaphore can be found in use, or, where `used` is `false`, idle.
pub open spec fn can_be_found(permits: Semaphore, limit: usize, used: bool) -> bool {
    exists|places: usize, free: usize|
        #![trigger can_be_shared(permits, places), can_be_free(permits, free)]
        can_be_shared(permits, places) && can_be_free(permits, free) && used == (places > 1 || free
            < limit)
}

/// Whether a semaphore that is kept in a map is in use just now.
pub fn found_in_use(permits: &Arc<Semaphore>, limit: usize) -> (r: bool)
    ensures
        can_be_found(**permits, limit, r),
{
    let n: usize = places(permits);
    let free: usize = free_permits(permits);
    in_use(n, free, limit)
}

/// The semaphores that a map holds, by text.
pub uninterp spec fn semaphores(m: DashMap<String, Arc<Semaphore>, RandomState>) -> Map<
    Seq<char>,
    Semaphore,
>;

/// `DashMap::new`: a map that holds nothing.
#[verifier::external_body]
pub(crate) fn new_semaphores() -> (r: DashMap<String, Arc<Semaphore>, RandomState>)
    ensures
        (semaphores(r) == Map::<Seq<char>, Semaphore>::empty()),
{
    DashMap::new()
}

/// `DashMap::get`: the semaphore of a text, if there is one.
#[verifier::external_body]
pub(crate) fn semaphore_of(
    m: &DashMap<String, Arc<Semaphore>, RandomState>,
    key: &str,
) -> (r: Option<Arc<Semaphore>>)
    ensures
        match r {
            Some(s) => semaphores(*m).contains_key(key@) && *s == semaphores(*m)[key@],
            None => !semaphores(*m).contains_key(key@),
        },
{
    m.get(key).map(|s| s.clone())
}

/// `DashMap::insert`: gives a text a semaphore in place of the one that it had.
#[verifier::external_body]
pub(crate) fn set_semaphore(
    m: &mut DashMap<String, Arc<Semaphore>, RandomState>,
    key: String,
    permits: Arc<Semaphore>,
)
    ensures
        semaphores(*final(m)) == semaphores(*old(m)).insert(key@, *permits),
{
    let _ = m.insert(key, permits);
}

/// `DashMap::retain`: asks of each semaphore whether it is in use, and keeps those
/// that are, each as it was.
#[verifier::external_body]
pub(crate) fn keep_used(m: &mut DashMap<String, Arc<Semaphore>, RandomState>, limit: usize)
    ensures
        forall|k: Seq<char>| #[trigger]
            semaphores(*final(m)).contains_key(k) ==> semaphores(*old(m)).contains_key(k)
                && semaphores(*final(m))[k] == semaphores(*old(m))[k] && can_be_found(
                semaphores(*old(m))[k],
                limit,
                true,
            ),
        forall|k: Seq<char>| #[trigger]
            semaphores(*old(m)).contains_key(k) && !semaphores(*final(m)).contains_key(k)
                ==> can_be_found(semaphores(*old(m))[k], limit, false),
{
    m.retain(|_, s| found_in_use(s, limit))
}

} // verus!
