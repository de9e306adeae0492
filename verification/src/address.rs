//! Addresses, address patterns, and matching one against the other.
//!
//! An address names an event: `/`-separated segments with a leading `/`.
//! A pattern is an address that may hold wildcards (`*`, `?`, `[a-z]`,
//! `{foo,bar}`). A message is sent to an address, or to an address with one
//! more segment that is empty, which only a last segment of `*` matches.
//! Parsing and matching patterns is the work of the `rosc`
//! crate; what this module believes of it is stated on the three
//! functions that call it.

use vstd::prelude::*;
use vstd::string::StrSliceExecFns;

use crate::error::Error;

verus! {

/// A character that may stand in a segment of an address: printable ASCII
/// without the space and without the characters that patterns reserve.
pub open spec fn is_address_character(c: char) -> bool {
    &&& 0x21 <= (c as u32) <= 0x7e
    &&& c != '#'
    &&& c != '*'
    &&& c != ','
    &&& c != '/'
    &&& c != '?'
    &&& c != '['
    &&& c != ']'
    &&& c != '{'
    &&& c != '}'
}

/// An address: one or more segments, each a `/` followed by at least one
/// address character.
pub open spec fn is_address(s: Seq<char>) -> bool {
    &&& s.len() >= 2
    &&& s[0] == '/'
    &&& s[s.len() - 1] != '/'
    &&& forall|i: int| 0 <= i < s.len() ==> s[i] == '/' || is_address_character(#[trigger] s[i])
    &&& forall|i: int| 0 <= i < s.len() - 1 ==> !(#[trigger] s[i] == '/' && s[i + 1] == '/')
}

/// The number of segments of an address or of a pattern: the number of
/// `/` in it.
pub open spec fn segment_count(s: Seq<char>) -> nat
    decreases s.len(),
{
    if s.len() == 0 {
        0
    } else if s.last() == '/' {
        segment_count(s.drop_last()) + 1
    } else {
        segment_count(s.drop_last())
    }
}

/// An address followed by one `/`: its last segment is empty.
pub open spec fn has_empty_last_segment(s: Seq<char>) -> bool {
    s.len() > 0 && s.last() == '/' && is_address(s.drop_last())
}

/// A text that a message can be sent to: an address, or an address with
/// one more segment that is empty.
pub open spec fn is_target(s: Seq<char>) -> bool {
    is_address(s) || has_empty_last_segment(s)
}

/// The pattern's last segment begins with the `/` at `cut` and is made of
/// one or more `*` and nothing else.
pub open spec fn star_segment_at(pattern: Seq<char>, cut: int) -> bool {
    &&& 0 <= cut < pattern.len() - 1
    &&& pattern[cut] == '/'
    &&& forall|j: int| cut < j < pattern.len() ==> #[trigger] pattern[j] == '*'
}

/// The pattern's last segment is made of `*` only.
pub open spec fn ends_in_star_segment(pattern: Seq<char>) -> bool {
    exists|cut: int| star_segment_at(pattern, cut)
}

/// The pattern without its last segment, where that is made of `*` only.
pub open spec fn before_star_segment(pattern: Seq<char>) -> Seq<char> {
    pattern.take(choose|cut: int| star_segment_at(pattern, cut))
}

/// Whether the target matches the pattern. Both have the same number of
/// segments. An address matches where the pattern matcher finds that it
/// does. A target with an empty last segment matches where the pattern's
/// last segment is made of `*` only, which matches the empty segment, and
/// the pattern matcher finds that what stands before the last segment of
/// the one matches what stands before the last segment of the other.
pub open spec fn address_matches(pattern: Seq<char>, target: Seq<char>) -> bool {
    &&& segment_count(pattern) == segment_count(target)
    &&& if has_empty_last_segment(target) {
        &&& ends_in_star_segment(pattern)
        &&& pattern_accepted(before_star_segment(pattern))
        &&& pattern_matches(before_star_segment(pattern), target.drop_last())
    } else {
        pattern_matches(pattern, target)
    }
}

/// What holds of a pattern where no wildcard decides. A pattern without
/// wildcards, which is an address itself, matches the address that is the
/// same text and no other. A pattern that is an address followed by a last
/// segment of `*` only matches the target that is the same address followed
/// by an empty last segment, and no other target with an empty last
/// segment.
pub open spec fn exact_where_plain(pattern: Seq<char>, target: Seq<char>) -> bool {
    &&& is_address(pattern) && is_address(target) ==> address_matches(pattern, target) == (pattern
        == target)
    &&& has_empty_last_segment(target) && ends_in_star_segment(pattern) && is_address(
        before_star_segment(pattern),
    ) ==> address_matches(pattern, target) == (before_star_segment(pattern)
        == target.drop_last())
}

/// Whether `rosc` parses the text as an address pattern.
pub uninterp spec fn pattern_accepted(pattern: Seq<char>) -> bool;

/// Whether `rosc` finds that the pattern matches the address.
pub uninterp spec fn pattern_matches(pattern: Seq<char>, address: Seq<char>) -> bool;

/// Calls `rosc::address::verify_address`, which accepts exactly the texts
/// made of one or more groups of a `/` and at least one address character.
#[verifier::external_body]
pub(crate) fn address_is_valid(address: &str) -> (r: bool)
    ensures
        r == is_address(address@),
{
    rosc::address::verify_address(address).is_ok()
}

/// Calls `rosc::address::Matcher::new` and hands back what it said where
/// it refused the pattern; of those words nothing is claimed. Believed of
/// it: a pattern begins with `/`, and every address is a pattern.
#[verifier::external_body]
fn pattern_fault(pattern: &str) -> (r: Option<String>)
    ensures
        r is None == pattern_accepted(pattern@),
        r is None ==> pattern@.len() > 0 && pattern@[0] == '/',
        is_address(pattern@) ==> r is None,
{
    match rosc::address::Matcher::new(pattern) {
        Ok(_) => None,
        Err(e) => Some(e.to_string()),
    }
}

/// The error for a text that is no pattern, with the parser's reason.
pub(crate) fn refuse_pattern(pattern: &str) -> (r: Option<Error>)
    ensures
        match r {
            None => pattern_accepted(pattern@),
            Some(e) => !pattern_accepted(pattern@) && e is InvalidPattern && e.subject()
                == pattern@,
        },
        r is None ==> pattern@.len() > 0 && pattern@[0] == '/',
        is_address(pattern@) ==> r is None,
{
    match pattern_fault(pattern) {
        None => None,
        Some(why) => Some(Error::InvalidPattern(pattern.to_owned(), why)),
    }
}

/// Calls `rosc::address::Matcher::match_address`, on the pattern as
/// `Matcher::new` parses it and the address as `OscAddress::new` takes it;
/// neither fails on what is required here. Believed of it: a pattern
/// without wildcards, which is an address itself, matches the address that
/// is the same text and no other.
#[verifier::external_body]
fn pattern_matches_address(pattern: &str, address: &str) -> (r: bool)
    requires
        pattern_accepted(pattern@),
        is_address(address@),
    ensures
        r == pattern_matches(pattern@, address@),
        is_address(pattern@) ==> r == (pattern@ == address@),
{
    let matcher = rosc::address::Matcher::new(pattern).unwrap();
    let target = rosc::address::OscAddress::new(address.to_string()).unwrap();
    matcher.match_address(&target)
}

/// Checks that the text is an address with no empty segment.
pub fn verify_address(address: &str) -> (r: Result<(), Error>)
    ensures
        match r {
            Ok(_) => is_address(address@),
            Err(e) => !is_address(address@) && e is InvalidAddress && e.subject() == address@,
        },
{
    if address_is_valid(address) {
        Ok(())
    } else {
        Err(Error::InvalidAddress(address.to_owned()))
    }
}

/// Checks that the text is an address pattern. A text that does not begin
/// with `/` is refused, the empty text among them; every address is
/// accepted.
pub fn verify_pattern(pattern: &str) -> (r: Result<(), Error>)
    ensures
        match r {
            Ok(_) => pattern_accepted(pattern@),
            Err(e) => !pattern_accepted(pattern@) && e is InvalidPattern && e.subject()
                == pattern@,
        },
        r is Ok ==> pattern@.len() > 0 && pattern@[0] == '/',
        is_address(pattern@) ==> r is Ok,
{
    match refuse_pattern(pattern) {
        None => Ok(()),
        Some(e) => Err(e),
    }
}

/// Counts the segments of an address or of a pattern.
pub fn count_segments(s: &str) -> (n: usize)
    ensures
        n == segment_count(s@),
{
    let len = s.unicode_len();
    let ascii = s.is_ascii();
    let mut n: usize = 0;
    let mut i: usize = 0;
    while i < len
        invariant
            i <= len,
            len == s@.len(),
            ascii == vstd::string::is_ascii(s),
            n <= i,
            n == segment_count(s@.take(i as int)),
        decreases len - i,
    {
        let slash = if ascii {
            s.get_ascii(i) == 47u8
        } else {
            s.get_char(i) == '/'
        };
        assert(slash == (s@[i as int] == '/'));
        assert(s@.take(i + 1).drop_last() =~= s@.take(i as int));
        if slash {
            n += 1;
        }
        i += 1;
    }
    assert(s@.take(len as int) =~= s@);
    n
}

/// Whether the character at the place is the given one.
fn char_at_is(s: &str, ascii: bool, i: usize, c: char) -> (r: bool)
    requires
        ascii == vstd::string::is_ascii(s),
        i < s@.len(),
        c == '/' || c == '*',
    ensures
        r == (s@[i as int] == c),
{
    if ascii {
        let b = s.get_ascii(i);
        if c == '/' {
            b == 47u8
        } else {
            b == 42u8
        }
    } else {
        s.get_char(i) == c
    }
}

/// Reads a text that a message is sent to: an address as it stands, or the
/// address before the closing `/` of an empty last segment.
pub(crate) fn read_target<'a>(target: &'a str) -> (r: Option<Option<&'a str>>)
    ensures
        match r {
            None => !is_target(target@),
            Some(None) => is_address(target@),
            Some(Some(stem)) => has_empty_last_segment(target@) && stem@
                == target@.drop_last(),
        },
{
    if address_is_valid(target) {
        return Some(None);
    }
    let len = target.unicode_len();
    if len == 0 {
        return None;
    }
    let ascii = target.is_ascii();
    if !char_at_is(target, ascii, len - 1, '/') {
        return None;
    }
    let stem = target.substring_char(0, len - 1);
    assert(stem@ =~= target@.drop_last());
    if address_is_valid(stem) {
        Some(Some(stem))
    } else {
        None
    }
}

/// The pattern without its last segment, where that is made of `*` only.
fn star_stem_of<'a>(pattern: &'a str) -> (r: Option<&'a str>)
    ensures
        match r {
            Some(head) => ends_in_star_segment(pattern@) && head@ == before_star_segment(
                pattern@,
            ),
            None => !ends_in_star_segment(pattern@),
        },
{
    let len = pattern.unicode_len();
    let ascii = pattern.is_ascii();
    let mut stars: usize = 0;
    let mut going = true;
    while going && stars < len
        invariant
            stars <= len,
            len == pattern@.len(),
            ascii == vstd::string::is_ascii(pattern),
            forall|j: int| len - stars <= j < len ==> #[trigger] pattern@[j] == '*',
            !going ==> stars < len && pattern@[len - stars - 1] != '*',
        decreases (len - stars) + (if going { 1int } else { 0int }),
    {
        if char_at_is(pattern, ascii, len - 1 - stars, '*') {
            stars += 1;
        } else {
            going = false;
        }
    }
    if stars == 0 || stars == len {
        assert forall|cut: int| !star_segment_at(pattern@, cut) by {
            if star_segment_at(pattern@, cut) {
                assert(pattern@[len - 1] == '*');
                assert(pattern@[cut] == '*');
            }
        }
        return None;
    }
    let at: usize = len - 1 - stars;
    if !char_at_is(pattern, ascii, at, '/') {
        assert forall|cut: int| !star_segment_at(pattern@, cut) by {
            if star_segment_at(pattern@, cut) {
                if cut < at {
                    assert(pattern@[at as int] == '*');
                } else if cut > at {
                    assert(pattern@[cut] == '*');
                }
            }
        }
        return None;
    }
    assert(star_segment_at(pattern@, at as int));
    let ghost cut = choose|cut: int| star_segment_at(pattern@, cut);
    assert(cut == at) by {
        if cut < at {
            assert(pattern@[at as int] == '*');
        } else if cut > at {
            assert(pattern@[cut] == '*');
        }
    }
    let head = pattern.substring_char(0, at);
    assert(head@ =~= pattern@.take(at as int));
    Some(head)
}

/// Matches a target against a pattern, both known to be what they should
/// be. `stem` is the target without the closing `/` of an empty last
/// segment, where it has one.
pub(crate) fn matches_target(
    pattern: &str,
    target: &str,
    stem: Option<&str>,
    segments: usize,
) -> (r: bool)
    requires
        pattern_accepted(pattern@),
        segments == segment_count(target@),
        match stem {
            Some(s) => has_empty_last_segment(target@) && s@ == target@.drop_last(),
            None => is_address(target@),
        },
    ensures
        r == address_matches(pattern@, target@),
        exact_where_plain(pattern@, target@),
{
    proof {
        if ends_in_star_segment(pattern@) {
            lemma_star_segment_count(
                pattern@,
                choose|cut: int| star_segment_at(pattern@, cut),
            );
        }
        if stem is Some {
            assert(segment_count(target@) == segment_count(target@.drop_last()) + 1);
        } else {
            assert(target@.last() != '/');
        }
    }
    if count_segments(pattern) != segments {
        return false;
    }
    match stem {
        None => pattern_matches_address(pattern, target),
        Some(s) => match star_stem_of(pattern) {
            Some(head) => pattern_fault(head).is_none() && pattern_matches_address(head, s),
            None => false,
        },
    }
}

/// A pattern whose last segment is made of `*` only has one segment more
/// than what stands before that segment.
pub proof fn lemma_star_segment_count(pattern: Seq<char>, cut: int)
    requires
        star_segment_at(pattern, cut),
    ensures
        segment_count(pattern) == segment_count(pattern.take(cut)) + 1,
    decreases pattern.len(),
{
    let inner = pattern.drop_last();
    assert(pattern.last() == '*');
    assert(segment_count(pattern) == segment_count(inner));
    if cut == inner.len() - 1 {
        assert(inner.last() == '/');
        assert(inner.drop_last() =~= pattern.take(cut));
    } else {
        assert forall|j: int| cut < j < inner.len() implies #[trigger] inner[j] == '*' by {
            assert(inner[j] == pattern[j]);
        }
        assert(inner[cut] == pattern[cut]);
        assert(star_segment_at(inner, cut));
        lemma_star_segment_count(inner, cut);
        assert(inner.take(cut) =~= pattern.take(cut));
    }
}

/// A target matches no pattern that has another number of segments,
/// whatever wildcards the pattern holds.
pub proof fn lemma_segment_mismatch_never_matches(pattern: Seq<char>, target: Seq<char>)
    requires
        segment_count(pattern) != segment_count(target),
    ensures
        !address_matches(pattern, target),
        match_outcome(pattern, target) != Some(true),
{
}

/// A `*` as the last segment of a pattern matches the empty last segment:
/// the pattern and the target match where what stands before the last
/// segment matches, and whenever that is the same plain address.
pub proof fn lemma_star_matches_empty_segment(head: Seq<char>, stem: Seq<char>)
    requires
        is_address(stem),
    ensures
        address_matches(head + seq!['/', '*'], stem.push('/')) == (segment_count(head)
            == segment_count(stem) && pattern_accepted(head) && pattern_matches(head, stem)),
{
    let pattern = head + seq!['/', '*'];
    let target = stem.push('/');
    let at = head.len() as int;
    assert(target.drop_last() =~= stem);
    assert(has_empty_last_segment(target));
    assert(pattern[at] == '/');
    assert(pattern[at + 1] == '*');
    assert(star_segment_at(pattern, at));
    let cut = choose|cut: int| star_segment_at(pattern, cut);
    assert(cut == at) by {
        if cut < at {
            assert(pattern[at] == '*');
        } else if cut > at {
            assert(pattern[cut] == '/');
        }
    }
    assert(pattern.take(at) =~= head);
    let inner = pattern.drop_last();
    assert(inner.drop_last() =~= head);
    assert(inner.last() == '/');
    assert(pattern.last() == '*');
    assert(segment_count(inner) == segment_count(head) + 1);
    assert(segment_count(pattern) == segment_count(inner));
    assert(segment_count(target) == segment_count(stem) + 1);
}

/// Checks that a message can be sent to the text: that it is an address,
/// or an address followed by the one `/` of an empty last segment.
pub fn verify_target(target: &str) -> (r: Result<(), Error>)
    ensures
        match r {
            Ok(_) => is_target(target@),
            Err(e) => !is_target(target@) && e is InvalidAddress && e.subject() == target@,
        },
{
    match read_target(target) {
        Some(_) => Ok(()),
        None => Err(Error::InvalidAddress(target.to_owned())),
    }
}

/// What `match_address` returns, given what the pattern matcher says.
pub open spec fn match_outcome(pattern: Seq<char>, target: Seq<char>) -> Option<bool> {
    if pattern_accepted(pattern) && is_target(target) {
        Some(address_matches(pattern, target))
    } else {
        None
    }
}

/// Decides whether the target matches the pattern.
///
/// A text that is no pattern is refused first, then a text that no message
/// can be sent to. A target matches only a pattern with as many segments
/// as it has. A pattern without wildcards, which is an address itself,
/// matches exactly the address that is the same text.
pub fn match_address(pattern: &str, address: &str) -> (r: Result<bool, Error>)
    ensures
        match r {
            Ok(b) => match_outcome(pattern@, address@) == Some(b),
            Err(e) => match_outcome(pattern@, address@) is None && e.subject() == (
            if pattern_accepted(pattern@) {
                address@
            } else {
                pattern@
            }) && (e is InvalidPattern <==> !pattern_accepted(pattern@)) && (e is InvalidAddress
                <==> pattern_accepted(pattern@)),
        },
        r == Ok::<bool, Error>(true) ==> segment_count(pattern@) == segment_count(address@),
        is_address(pattern@) && is_address(address@) ==> r == Ok::<bool, Error>(
            pattern@ == address@,
        ),
        r is Ok ==> exact_where_plain(pattern@, address@),
{
    if let Some(e) = refuse_pattern(pattern) {
        return Err(e);
    }
    match read_target(address) {
        None => Err(Error::InvalidAddress(address.to_owned())),
        Some(stem) => {
            let segments = count_segments(address);
            Ok(matches_target(pattern, address, stem, segments))
        },
    }
}

} // verus!
