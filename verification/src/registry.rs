//! The registry of subscriptions, and sending through it.
//!
//! A registry maps address patterns to callback handles. It is modelled as a
//! sequence of pairs of a pattern and a handle, in which no pattern stands
//! twice and every pattern is one that the matcher accepts. A handle is any
//! copyable value: the registry stores it and hands it back, and whoever
//! sends the message invokes what it stands for.

use vstd::prelude::*;

use crate::address::{
    address_matches,
    count_segments,
    exact_where_plain,
    has_empty_last_segment,
    is_address,
    is_target,
    matches_target,
    pattern_accepted,
    read_target,
    refuse_pattern,
    segment_count,
};
use crate::error::Error;
use crate::event_loop::Message;

verus! {

/// Whether some entry has the pattern as its key.
pub open spec fn has_pattern<H>(s: Seq<(Seq<char>, H)>, pattern: Seq<char>) -> bool {
    exists|i: int| 0 <= i < s.len() && (#[trigger] s[i]).0 == pattern
}

/// The place of an entry with the pattern as its key, where there is one.
pub open spec fn index_of<H>(s: Seq<(Seq<char>, H)>, pattern: Seq<char>) -> int {
    choose|i: int| 0 <= i < s.len() && (#[trigger] s[i]).0 == pattern
}

/// No pattern is the key of two entries.
pub open spec fn distinct_patterns<H>(s: Seq<(Seq<char>, H)>) -> bool {
    forall|i: int, j: int|
        0 <= i < j < s.len() ==> (#[trigger] s[i]).0 != (#[trigger] s[j]).0
}

/// Every key is a pattern that the matcher accepts.
pub open spec fn patterns_accepted<H>(s: Seq<(Seq<char>, H)>) -> bool {
    forall|i: int| 0 <= i < s.len() ==> pattern_accepted((#[trigger] s[i]).0)
}

/// What holds of every registry.
pub open spec fn well_formed<H>(s: Seq<(Seq<char>, H)>) -> bool {
    distinct_patterns(s) && patterns_accepted(s)
}

/// The entries after the pattern was registered with the handle: the
/// pattern's entry holds the new handle in its old place, or a new entry
/// stands at the end.
pub open spec fn registered<H>(s: Seq<(Seq<char>, H)>, pattern: Seq<char>, handle: H) -> Seq<
    (Seq<char>, H),
> {
    if has_pattern(s, pattern) {
        s.update(index_of(s, pattern), (pattern, handle))
    } else {
        s.push((pattern, handle))
    }
}

/// The entries after the pattern was unregistered.
pub open spec fn unregistered<H>(s: Seq<(Seq<char>, H)>, pattern: Seq<char>) -> Seq<
    (Seq<char>, H),
> {
    if has_pattern(s, pattern) {
        s.remove(index_of(s, pattern))
    } else {
        s
    }
}

/// The handle registered under exactly this pattern, if any.
pub open spec fn handle_of<H>(s: Seq<(Seq<char>, H)>, pattern: Seq<char>) -> Option<H> {
    if has_pattern(s, pattern) {
        Some(s[index_of(s, pattern)].1)
    } else {
        None
    }
}

/// The handles of the entries whose pattern matches the address, in the
/// order of the entries.
pub open spec fn matching_handles<H>(s: Seq<(Seq<char>, H)>, address: Seq<char>) -> Seq<H>
    decreases s.len(),
{
    if s.len() == 0 {
        Seq::empty()
    } else if address_matches(s.last().0, address) {
        matching_handles(s.drop_last(), address).push(s.last().1)
    } else {
        matching_handles(s.drop_last(), address)
    }
}

/// Of every entry: where no wildcard decides, whether its pattern matches
/// the target is a comparison of texts.
pub open spec fn exact_on_plain_patterns<H>(s: Seq<(Seq<char>, H)>, target: Seq<char>) -> bool {
    forall|i: int| 0 <= i < s.len() ==> exact_where_plain((#[trigger] s[i]).0, target)
}

/// The model of the stored entries.
pub open spec fn entries_view<H>(entries: Seq<(String, H)>) -> Seq<(Seq<char>, H)> {
    entries.map_values(|e: (String, H)| (e.0@, e.1))
}

/// A mapping from address patterns to callback handles.
pub struct Registry<H> {
    entries: Vec<(String, H)>,
}

impl<H> Registry<H> {
    /// The entries, each a pattern and its handle, oldest first.
    pub closed spec fn view(&self) -> Seq<(Seq<char>, H)> {
        entries_view(self.entries@)
    }

    #[verifier::type_invariant]
    spec fn inv(self) -> bool {
        well_formed(entries_view(self.entries@))
    }
}

impl<H: Copy> Registry<H> {
    /// A registry without entries.
    pub fn new() -> (r: Self)
        ensures
            r@ == Seq::<(Seq<char>, H)>::empty(),
    {
        let r = Registry { entries: Vec::new() };
        assert(r@ =~= Seq::<(Seq<char>, H)>::empty());
        r
    }

    /// The number of entries.
    pub fn len(&self) -> (n: usize)
        ensures
            n == self@.len(),
            well_formed(self@),
    {
        proof {
            use_type_invariant(self);
        }
        self.entries.len()
    }

    /// A copy of the entries as they stand, to walk without holding on to
    /// the registry.
    pub fn snapshot(&self) -> (r: Vec<(String, H)>)
        ensures
            entries_view(r@) == self@,
            well_formed(self@),
    {
        proof {
            use_type_invariant(self);
        }
        let mut out: Vec<(String, H)> = Vec::new();
        let mut i: usize = 0;
        while i < self.entries.len()
            invariant
                i <= self.entries.len(),
                out.len() == i,
                forall|j: int|
                    0 <= j < i ==> (#[trigger] out[j]).0@ == self.entries[j].0@ && out[j].1
                        == self.entries[j].1,
            decreases self.entries.len() - i,
        {
            let key = self.entries[i].0.clone();
            out.push((key, self.entries[i].1));
            i += 1;
        }
        assert(entries_view(out@) =~= self@);
        out
    }
}

/// The place of the entry with this pattern, if there is one.
fn position<H>(entries: &Vec<(String, H)>, pattern: &String) -> (r: Option<usize>)
    ensures
        match r {
            Some(i) => i < entries.len() && entries[i as int].0@ == pattern@,
            None => forall|j: int| 0 <= j < entries.len() ==> (#[trigger] entries[j]).0@ != pattern@,
        },
{
    let mut i: usize = 0;
    while i < entries.len()
        invariant
            i <= entries.len(),
            forall|j: int| 0 <= j < i ==> (#[trigger] entries[j]).0@ != pattern@,
        decreases entries.len() - i,
    {
        if entries[i].0.eq(pattern) {
            return Some(i);
        }
        i += 1;
    }
    None
}

/// Subscribes the handle to the pattern.
///
/// A text that is no pattern is refused and the registry stays as it was:
/// every text that does not begin with `/` is refused, and no address is.
/// Otherwise the handle replaces the one that the pattern had, or the
/// pattern gets a new entry.
pub fn listen<H: Copy>(registry: &mut Registry<H>, pattern: &str, handle: H) -> (r: Result<
    (),
    Error,
>)
    ensures
        well_formed(final(registry)@),
        match r {
            Ok(_) => pattern_accepted(pattern@) && final(registry)@ == registered(
                old(registry)@,
                pattern@,
                handle,
            ),
            Err(e) => !pattern_accepted(pattern@) && e is InvalidPattern && e.subject()
                == pattern@ && final(registry)@ == old(registry)@,
        },
        r is Ok ==> pattern@.len() > 0 && pattern@[0] == '/',
        is_address(pattern@) ==> r is Ok,
{
    proof {
        use_type_invariant(&*registry);
    }
    if let Some(e) = refuse_pattern(pattern) {
        return Err(e);
    }
    let key = pattern.to_owned();
    let ghost before = registry@;
    let mut entries: Vec<(String, H)> = Vec::new();
    core::mem::swap(&mut registry.entries, &mut entries);
    assert(entries_view(entries@) == before);
    match position(&entries, &key) {
        Some(i) => {
            assert(before[i as int].0 == pattern@);
            assert(index_of(before, pattern@) == i);
            entries.remove(i);
            entries.insert(i, (key, handle));
            assert(entries_view(entries@) =~= before.update(i as int, (pattern@, handle)));
        },
        None => {
            assert forall|j: int| 0 <= j < before.len() implies (#[trigger] before[j]).0
                != pattern@ by {
                assert(old(registry).entries[j].0@ != pattern@);
            }
            entries.push((key, handle));
            assert(entries_view(entries@) =~= before.push((pattern@, handle)));
        },
    }
    proof {
        lemma_registered_well_formed(before, pattern@, handle);
    }
    registry.entries = entries;
    Ok(())
}

/// Ends the pattern's subscription. A pattern that has none leaves the
/// registry as it was.
pub fn unlisten<H: Copy>(registry: &mut Registry<H>, pattern: &str)
    ensures
        well_formed(final(registry)@),
        final(registry)@ == unregistered(old(registry)@, pattern@),
        !has_pattern(old(registry)@, pattern@) ==> final(registry)@ == old(registry)@,
        !has_pattern(final(registry)@, pattern@),
{
    proof {
        use_type_invariant(&*registry);
    }
    let key = pattern.to_owned();
    let ghost before = registry@;
    let mut entries: Vec<(String, H)> = Vec::new();
    core::mem::swap(&mut registry.entries, &mut entries);
    assert(entries_view(entries@) == before);
    match position(&entries, &key) {
        Some(i) => {
            assert(before[i as int].0 == pattern@);
            assert(index_of(before, pattern@) == i);
            entries.remove(i);
            assert(entries_view(entries@) =~= before.remove(i as int));
        },
        None => {
            assert forall|j: int| 0 <= j < before.len() implies (#[trigger] before[j]).0
                != pattern@ by {
                assert(old(registry).entries[j].0@ != pattern@);
            }
        },
    }
    proof {
        lemma_unregistered_forgets(before, pattern@);
    }
    registry.entries = entries;
}

/// Sends the message to every subscriber whose pattern matches its event:
/// returns their handles, in the order of the entries, for the caller to
/// invoke with the payload. That nothing matches is no error. The event is
/// an address, or an address with one more segment that is empty; any
/// other text is refused.
pub fn send<H: Copy>(registry: &Registry<H>, message: &Message) -> (r: Result<Vec<H>, Error>)
    ensures
        well_formed(registry@),
        match r {
            Ok(handles) => is_target(message.event@) && handles@ == matching_handles(
                registry@,
                message.event@,
            ),
            Err(e) => !is_target(message.event@) && e is InvalidAddress && e.subject()
                == message.event@,
        },
        r is Ok ==> exact_on_plain_patterns(registry@, message.event@),
{
    proof {
        use_type_invariant(registry);
    }
    let address = message.event.as_str();
    let stem = match read_target(address) {
        Some(stem) => stem,
        None => {
            return Err(Error::InvalidAddress(address.to_owned()));
        },
    };
    let segments = count_segments(address);
    let mut handles: Vec<H> = Vec::new();
    let mut i: usize = 0;
    while i < registry.entries.len()
        invariant
            i <= registry.entries.len(),
            address@ == message.event@,
            segments == segment_count(address@),
            match stem {
                Some(s) => has_empty_last_segment(address@) && s@ == address@.drop_last(),
                None => is_address(address@),
            },
            well_formed(registry@),
            registry@ == entries_view(registry.entries@),
            handles@ == matching_handles(registry@.take(i as int), address@),
            exact_on_plain_patterns(registry@.take(i as int), address@),
        decreases registry.entries.len() - i,
    {
        assert(registry@[i as int].0 == registry.entries[i as int].0@);
        assert(registry@.take(i + 1).drop_last() =~= registry@.take(i as int));
        if matches_target(registry.entries[i].0.as_str(), address, stem, segments) {
            handles.push(registry.entries[i].1);
        }
        i += 1;
    }
    assert(registry@.take(i as int) =~= registry@);
    Ok(handles)
}

/// Sends to the one subscriber registered under exactly this event name:
/// returns its handle, or reports that there is none.
pub fn send_to<H: Copy>(registry: &Registry<H>, event: &str) -> (r: Result<H, Error>)
    ensures
        well_formed(registry@),
        match r {
            Ok(handle) => handle_of(registry@, event@) == Some(handle),
            Err(e) => handle_of(registry@, event@) is None && e is CallbackNotFound
                && e.subject() == event@,
        },
{
    proof {
        use_type_invariant(registry);
    }
    let key = event.to_owned();
    match position(&registry.entries, &key) {
        Some(i) => {
            assert(registry@[i as int].0 == event@);
            assert(index_of(registry@, event@) == i);
            Ok(registry.entries[i].1)
        },
        None => {
            assert forall|j: int| 0 <= j < registry@.len() implies (#[trigger] registry@[j]).0
                != event@ by {
                assert(registry.entries[j].0@ != event@);
            }
            Err(Error::CallbackNotFound(key))
        },
    }
}

/// Registering an accepted pattern keeps the entries well formed.
pub proof fn lemma_registered_well_formed<H>(s: Seq<(Seq<char>, H)>, pattern: Seq<char>, handle: H)
    requires
        well_formed(s),
        pattern_accepted(pattern),
    ensures
        well_formed(registered(s, pattern, handle)),
        handle_of(registered(s, pattern, handle), pattern) == Some(handle),
{
    let t = registered(s, pattern, handle);
    if has_pattern(s, pattern) {
        let i = index_of(s, pattern);
        assert(t[i].0 == pattern);
    } else {
        assert(t[s.len() as int].0 == pattern);
    }
    assert(has_pattern(t, pattern));
    let k = index_of(t, pattern);
    assert(t[k].0 == pattern);
}

/// Unregistering keeps the entries well formed and leaves the pattern
/// without an entry.
pub proof fn lemma_unregistered_forgets<H>(s: Seq<(Seq<char>, H)>, pattern: Seq<char>)
    requires
        well_formed(s),
    ensures
        well_formed(unregistered(s, pattern)),
        !has_pattern(unregistered(s, pattern), pattern),
        handle_of(unregistered(s, pattern), pattern) is None,
{
    let t = unregistered(s, pattern);
    if has_pattern(s, pattern) {
        let i = index_of(s, pattern);
        assert forall|j: int| 0 <= j < t.len() implies (#[trigger] t[j]).0 != pattern by {
            if j < i {
                assert(t[j] == s[j]);
            } else {
                assert(t[j] == s[j + 1]);
            }
        }
        assert forall|a: int, b: int| 0 <= a < b < t.len() implies (#[trigger] t[a]).0 != (
        #[trigger] t[b]).0 by {
            let a2 = if a < i { a } else { a + 1 };
            let b2 = if b < i { b } else { b + 1 };
            assert(t[a] == s[a2]);
            assert(t[b] == s[b2]);
        }
        assert forall|j: int| 0 <= j < t.len() implies pattern_accepted((#[trigger] t[j]).0) by {
            let j2 = if j < i { j } else { j + 1 };
            assert(t[j] == s[j2]);
        }
    }
}

/// Registering a pattern twice is registering it once with the second
/// handle: the first handle is gone, and a send reaches the second alone.
pub proof fn lemma_listen_twice_replaces<H>(
    s: Seq<(Seq<char>, H)>,
    pattern: Seq<char>,
    first: H,
    second: H,
    address: Seq<char>,
)
    requires
        distinct_patterns(s),
    ensures
        registered(registered(s, pattern, first), pattern, second) == registered(
            s,
            pattern,
            second,
        ),
        handle_of(registered(registered(s, pattern, first), pattern, second), pattern) == Some(
            second,
        ),
        distinct_patterns(registered(registered(s, pattern, first), pattern, second)),
        matching_handles(registered(registered(s, pattern, first), pattern, second), address)
            == matching_handles(registered(s, pattern, second), address),
{
    let once = registered(s, pattern, first);
    let twice = registered(once, pattern, second);
    let direct = registered(s, pattern, second);
    let at = if has_pattern(s, pattern) {
        index_of(s, pattern)
    } else {
        s.len() as int
    };
    assert(once[at].0 == pattern);
    assert(has_pattern(once, pattern));
    let k = index_of(once, pattern);
    assert(once[k].0 == pattern);
    assert(k == at) by {
        if k != at {
            if has_pattern(s, pattern) {
                assert(once[k] == s[k]);
                assert(s[at].0 == pattern);
            } else {
                assert(once[k] == s[k]);
            }
        }
    }
    assert(twice =~= direct);
    assert(direct[at].0 == pattern);
    assert(has_pattern(direct, pattern));
    let d = index_of(direct, pattern);
    assert(direct[d].0 == pattern);
    assert(d == at) by {
        if d != at {
            assert(direct[d] == s[d]);
            if has_pattern(s, pattern) {
                assert(s[at].0 == pattern);
            }
        }
    }
    assert forall|a: int, b: int| 0 <= a < b < direct.len() implies (#[trigger] direct[a]).0 != (
    #[trigger] direct[b]).0 by {
        if a != at {
            assert(direct[a] == s[a]);
        }
        if b != at {
            assert(direct[b] == s[b]);
        }
        if has_pattern(s, pattern) {
            assert(s[at].0 == pattern);
        }
    }
}

/// Registering a pattern leaves the handle of every other pattern as it
/// was.
pub proof fn lemma_registered_keeps_others<H>(
    s: Seq<(Seq<char>, H)>,
    pattern: Seq<char>,
    handle: H,
    other: Seq<char>,
)
    requires
        distinct_patterns(s),
        other != pattern,
    ensures
        handle_of(registered(s, pattern, handle), other) == handle_of(s, other),
{
    let t = registered(s, pattern, handle);
    let at = if has_pattern(s, pattern) {
        index_of(s, pattern)
    } else {
        s.len() as int
    };
    assert(t[at].0 == pattern);
    assert(forall|k: int| 0 <= k < s.len() && k != at ==> t[k] == s[k]);
    if has_pattern(s, other) {
        let j = index_of(s, other);
        assert(s[j].0 == other);
        assert(t[j].0 == other);
        let k = index_of(t, other);
        assert(t[k].0 == other);
        assert(s[k].0 == other);
        assert(k == j);
    } else {
        if has_pattern(t, other) {
            let k = index_of(t, other);
            assert(t[k].0 == other);
            assert(s[k].0 == other);
        }
    }
}

/// Unregistering a pattern leaves the handle of every other pattern as it
/// was.
pub proof fn lemma_unregistered_keeps_others<H>(
    s: Seq<(Seq<char>, H)>,
    pattern: Seq<char>,
    other: Seq<char>,
)
    requires
        distinct_patterns(s),
        other != pattern,
    ensures
        handle_of(unregistered(s, pattern), other) == handle_of(s, other),
{
    let t = unregistered(s, pattern);
    if has_pattern(s, pattern) {
        let at = index_of(s, pattern);
        assert(s[at].0 == pattern);
        assert(forall|k: int| 0 <= k < at ==> t[k] == s[k]);
        assert(forall|k: int| at <= k < t.len() ==> t[k] == s[k + 1]);
        if has_pattern(s, other) {
            let j = index_of(s, other);
            assert(s[j].0 == other);
            let j2 = if j < at {
                j
            } else {
                j - 1
            };
            assert(t[j2].0 == other);
            let k = index_of(t, other);
            assert(t[k].0 == other);
            let k2 = if k < at {
                k
            } else {
                k + 1
            };
            assert(s[k2].0 == other);
            assert(k2 == j);
        } else {
            if has_pattern(t, other) {
                let k = index_of(t, other);
                assert(t[k].0 == other);
                let k2 = if k < at {
                    k
                } else {
                    k + 1
                };
                assert(s[k2].0 == other);
            }
        }
    }
}

/// Unregistering a pattern that has no entry changes nothing.
pub proof fn lemma_unlisten_absent<H>(s: Seq<(Seq<char>, H)>, pattern: Seq<char>)
    requires
        !has_pattern(s, pattern),
    ensures
        unregistered(s, pattern) == s,
        handle_of(s, pattern) is None,
{
}

/// Where no pattern matches the address, a send reaches no handle.
pub proof fn lemma_no_match_no_handles<H>(s: Seq<(Seq<char>, H)>, address: Seq<char>)
    requires
        forall|i: int| 0 <= i < s.len() ==> !address_matches((#[trigger] s[i]).0, address),
    ensures
        matching_handles(s, address) == Seq::<H>::empty(),
    decreases s.len(),
{
    if s.len() > 0 {
        assert(!address_matches(s[s.len() - 1].0, address));
        assert forall|i: int| 0 <= i < s.drop_last().len() implies !address_matches(
            (#[trigger] s.drop_last()[i]).0,
            address,
        ) by {
            assert(s.drop_last()[i] == s[i]);
        }
        lemma_no_match_no_handles(s.drop_last(), address);
    }
}

} // verus!
