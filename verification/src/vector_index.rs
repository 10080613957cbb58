use crate::decimal::{decimal, push_decimal};
use std::collections::HashMap;
use vstd::prelude::*;

verus! {

broadcast use vstd::std_specs::hash::group_hash_axioms;

/// What the cache holds for a project.
pub enum Slot<H> {
    /// Someone is opening the index; nobody else may.
    Opening,
    /// The index is open.
    Open(H),
    /// The index was closed; what it wrote to disk is still there.
    Closed,
}

/// Where the index of a project stands.
#[derive(Debug, Clone, Copy, PartialEq, Eq, Structural)]
pub enum IndexState {
    /// Never opened, or deleted.
    Uninitialized,
    /// Being opened.
    Opening,
    /// Open and in the cache.
    Open,
    /// Closed, its data on disk.
    Closed,
}

/// What a caller who asks for the index of a project has to do.
#[derive(Debug, Clone, Copy, PartialEq, Eq, Structural)]
pub enum Lookup {
    /// The index is in the cache: use it.
    Cached,
    /// Someone else is opening it: wait for them.
    Wait,
    /// Open it, then report how that went.
    Open,
}

/// The open indexes, by project.
pub struct VectorIndexCache<H> {
    slots: HashMap<i64, Slot<H>>,
}

/// Where the index of `project_id` stands in `slots`.
pub open spec fn state_in<H>(slots: Map<i64, Slot<H>>, project_id: i64) -> IndexState {
    if !slots.dom().contains(project_id) {
        IndexState::Uninitialized
    } else {
        match slots[project_id] {
            Slot::Opening => IndexState::Opening,
            Slot::Open(_) => IndexState::Open,
            Slot::Closed => IndexState::Closed,
        }
    }
}

/// What a caller who asks for the index of `project_id` is told.
pub open spec fn lookup_in<H>(slots: Map<i64, Slot<H>>, project_id: i64) -> Lookup {
    match state_in(slots, project_id) {
        IndexState::Open => Lookup::Cached,
        IndexState::Opening => Lookup::Wait,
        _ => Lookup::Open,
    }
}

/// The cache after a caller asked for the index of `project_id`: the
/// caller who is told to open it is noted down as opening it.
pub open spec fn after_lookup<H>(slots: Map<i64, Slot<H>>, project_id: i64) -> Map<
    i64,
    Slot<H>,
> {
    match lookup_in(slots, project_id) {
        Lookup::Open => slots.insert(project_id, Slot::Opening),
        _ => slots,
    }
}

/// The cache after the caller who was opening the index of `project_id`
/// reported `opened`: the index if it could be opened. The report of a
/// caller who was not opening it changes nothing.
pub open spec fn after_open<H>(slots: Map<i64, Slot<H>>, project_id: i64, opened: Option<H>) -> Map<
    i64,
    Slot<H>,
> {
    if state_in(slots, project_id) == IndexState::Opening {
        match opened {
            Some(index) => slots.insert(project_id, Slot::Open(index)),
            None => slots.remove(project_id),
        }
    } else {
        slots
    }
}

/// The cache after the index of `project_id` was closed: an open index
/// leaves the cache and is noted down as closed. Where no index is in the
/// cache for the project, nothing changes; one that is being opened stays
/// with its opener.
pub open spec fn after_close<H>(slots: Map<i64, Slot<H>>, project_id: i64) -> Map<i64, Slot<H>> {
    if state_in(slots, project_id) == IndexState::Open {
        slots.insert(project_id, Slot::Closed)
    } else {
        slots
    }
}

/// The cache after the index of `project_id` was deleted: the project is
/// forgotten. An index that is being opened stays with its opener, and
/// nothing changes.
pub open spec fn after_delete<H>(slots: Map<i64, Slot<H>>, project_id: i64) -> Map<i64, Slot<H>> {
    if state_in(slots, project_id) == IndexState::Opening {
        slots
    } else {
        slots.remove(project_id)
    }
}

/// The name of the directory that holds the index of `project_id`.
pub open spec fn directory_name(project_id: i64) -> Seq<char> {
    "project_"@ + decimal(project_id as int)
}

/// The name of the directory that holds the index of `project_id`, below
/// the directory of all indexes.
pub fn get_project_vector_path(project_id: i64) -> (r: String)
    ensures
        r@ == directory_name(project_id),
{
    let mut name = "project_".to_owned();
    push_decimal(&mut name, project_id);
    name
}

impl<H> View for VectorIndexCache<H> {
    type V = Map<i64, Slot<H>>;

    closed spec fn view(&self) -> Map<i64, Slot<H>> {
        self.slots@
    }
}

impl<H> VectorIndexCache<H> {
    /// A cache that holds nothing.
    pub fn new() -> (cache: Self)
        ensures
            cache@ == Map::<i64, Slot<H>>::empty(),
    {
        VectorIndexCache { slots: HashMap::new() }
    }

    /// Where the index of `project_id` stands.
    pub fn state(&self, project_id: i64) -> (r: IndexState)
        ensures
            r == state_in(self@, project_id),
    {
        match self.slots.get(&project_id) {
            None => IndexState::Uninitialized,
            Some(Slot::Opening) => IndexState::Opening,
            Some(Slot::Open(_)) => IndexState::Open,
            Some(Slot::Closed) => IndexState::Closed,
        }
    }

    /// The index of `project_id`, where it is open.
    pub fn cached_index(&self, project_id: i64) -> (r: Option<&H>)
        ensures
            match r {
                Some(index) => self@.dom().contains(project_id) && self@[project_id] == Slot::Open(
                    *index,
                ),
                None => state_in(self@, project_id) != IndexState::Open,
            },
    {
        match self.slots.get(&project_id) {
            Some(Slot::Open(index)) => Some(index),
            _ => None,
        }
    }
}

/// Asks for the index of `project_id`. Where it is open the caller uses
/// it; where someone is opening it the caller waits; else the caller is to
/// open it, and is noted down as doing so, so that nobody else will.
pub fn get_project_vector_db<H>(cache: &mut VectorIndexCache<H>, project_id: i64) -> (r: Lookup)
    ensures
        r == lookup_in(old(cache)@, project_id),
        final(cache)@ == after_lookup(old(cache)@, project_id),
{
    match cache.state(project_id) {
        IndexState::Open => Lookup::Cached,
        IndexState::Opening => Lookup::Wait,
        _ => {
            cache.slots.insert(project_id, Slot::Opening);
            Lookup::Open
        },
    }
}

/// Takes the report of the caller who was to open the index of
/// `project_id`: `opened` is the index, or nothing where it could not be
/// opened, in which case the next caller is to try again. Gives back an
/// index that was not put into the cache, because the caller was not the
/// one opening it.
pub fn finish_open<H>(cache: &mut VectorIndexCache<H>, project_id: i64, opened: Option<H>) -> (r:
    Option<H>)
    ensures
        final(cache)@ == after_open(old(cache)@, project_id, opened),
        r == if state_in(old(cache)@, project_id) == IndexState::Opening {
            None
        } else {
            opened
        },
{
    match cache.state(project_id) {
        IndexState::Opening => {
            match opened {
                Some(index) => {
                    cache.slots.insert(project_id, Slot::Open(index));
                },
                None => {
                    cache.slots.remove(&project_id);
                },
            }
            None
        },
        _ => opened,
    }
}

/// Takes the index of `project_id` out of the cache; what it wrote to disk
/// stays. Nothing happens where no index is in the cache for the project,
/// be it that none was opened, that it was closed before, or that someone
/// is still opening it. Says whether an index left the cache.
pub fn close_project_vectors<H>(cache: &mut VectorIndexCache<H>, project_id: i64) -> (r: bool)
    ensures
        final(cache)@ == after_close(old(cache)@, project_id),
        r == (state_in(old(cache)@, project_id) == IndexState::Open),
{
    match cache.state(project_id) {
        IndexState::Open => {
            cache.slots.insert(project_id, Slot::Closed);
            true
        },
        _ => false,
    }
}

/// Forgets the index of `project_id` and names the directory that is to be
/// removed with all that is in it. While someone is opening the index
/// nothing is forgotten and no directory is named: the caller waits for
/// the opener and asks again.
pub fn delete_project_vectors<H>(cache: &mut VectorIndexCache<H>, project_id: i64) -> (r: Option<
    String,
>)
    ensures
        final(cache)@ == after_delete(old(cache)@, project_id),
        match r {
            Some(directory) => {
                &&& state_in(old(cache)@, project_id) != IndexState::Opening
                &&& state_in(final(cache)@, project_id) == IndexState::Uninitialized
                &&& directory@ == directory_name(project_id)
            },
            None => state_in(old(cache)@, project_id) == IndexState::Opening,
        },
{
    match cache.state(project_id) {
        IndexState::Opening => None,
        _ => {
            cache.slots.remove(&project_id);
            Some(get_project_vector_path(project_id))
        },
    }
}

/// Of two callers who ask for the index of a project one after the other,
/// at most one is told to open it.
pub proof fn lemma_one_opener<H>(slots: Map<i64, Slot<H>>, project_id: i64)
    ensures
        lookup_in(after_lookup(slots, project_id), project_id) != Lookup::Open,
{
}

/// Once the opener has reported an index, every caller finds it in the
/// cache, until it is closed or deleted.
pub proof fn lemma_opened_is_cached<H>(slots: Map<i64, Slot<H>>, project_id: i64, index: H)
    requires
        state_in(slots, project_id) == IndexState::Opening,
    ensures
        lookup_in(after_open(slots, project_id, Some(index)), project_id) == Lookup::Cached,
        after_lookup(after_open(slots, project_id, Some(index)), project_id) == after_open(
            slots,
            project_id,
            Some(index),
        ),
{
}

/// After an open index was closed, and after an index that nobody was
/// opening was deleted, the next caller is told to open the index.
pub proof fn lemma_reopen_after_close<H>(slots: Map<i64, Slot<H>>, project_id: i64)
    ensures
        state_in(slots, project_id) == IndexState::Open ==> lookup_in(
            after_close(slots, project_id),
            project_id,
        ) == Lookup::Open,
        state_in(slots, project_id) != IndexState::Opening ==> lookup_in(
            after_delete(slots, project_id),
            project_id,
        ) == Lookup::Open,
{
}

/// Closing changes nothing where no index is in the cache for the
/// project. Neither a close nor a delete takes an index from the one who
/// is opening it: the next caller still waits, and the opener's report
/// still puts the index into the cache.
pub proof fn lemma_opener_is_left_alone<H>(slots: Map<i64, Slot<H>>, project_id: i64, index: H)
    ensures
        state_in(slots, project_id) != IndexState::Open ==> after_close(slots, project_id)
            == slots,
        state_in(slots, project_id) == IndexState::Opening ==> {
            &&& after_close(slots, project_id) == slots
            &&& after_delete(slots, project_id) == slots
            &&& lookup_in(after_close(slots, project_id), project_id) == Lookup::Wait
            &&& lookup_in(after_delete(slots, project_id), project_id) == Lookup::Wait
            &&& state_in(
                after_open(after_close(slots, project_id), project_id, Some(index)),
                project_id,
            ) == IndexState::Open
        },
{
}

/// What is done for one project leaves every other project as it was.
pub proof fn lemma_projects_are_independent<H>(
    slots: Map<i64, Slot<H>>,
    project_id: i64,
    other: i64,
    opened: Option<H>,
)
    requires
        project_id != other,
    ensures
        state_in(after_lookup(slots, project_id), other) == state_in(slots, other),
        state_in(after_open(slots, project_id, opened), other) == state_in(slots, other),
        state_in(after_close(slots, project_id), other) == state_in(slots, other),
        state_in(after_delete(slots, project_id), other) == state_in(slots, other),
{
}

} // verus!
