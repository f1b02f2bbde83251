//! Note identifiers in source documents: a heading label `note:<uuid>`
//! declares a note, an anchor target `note://<uuid>` links to one.

use vstd::prelude::*;
use vstd::string::StrSliceExecFns;

verus! {

/// The 128-bit value of a UUID written as `s`, if `s` is one.
pub uninterp spec fn uuid_value(s: Seq<char>) -> Option<u128>;

/// Relies on `uuid::Uuid::parse_str`, read back with `Uuid::as_u128`: the
/// value of a UUID in any textual form that uuid accepts, nothing otherwise.
#[verifier::external_body]
fn parse_uuid(s: &str) -> (r: Option<u128>)
    ensures
        r == uuid_value(s@),
{
    uuid::Uuid::parse_str(s).ok().map(|u| u.as_u128())
}

/// `s` without the leading `p`, if `s` starts with `p`.
pub open spec fn strip_prefix(s: Seq<char>, p: Seq<char>) -> Option<Seq<char>> {
    if p.len() <= s.len() && s.take(p.len() as int) == p {
        Some(s.skip(p.len() as int))
    } else {
        None
    }
}

pub fn strip_prefix_str<'a>(s: &'a str, p: &str) -> (r: Option<&'a str>)
    ensures
        match strip_prefix(s@, p@) {
            Some(t) => r is Some && r->Some_0@ == t,
            None => r is None,
        },
{
    let n = s.unicode_len();
    let m = p.unicode_len();
    if m > n {
        return None;
    }
    let mut k: usize = 0;
    while k < m
        invariant
            k <= m <= n,
            n == s@.len(),
            m == p@.len(),
            forall|j: int| 0 <= j < k ==> s@[j] == p@[j],
        decreases m - k,
    {
        if s.get_char(k) != p.get_char(k) {
            proof {
                assert(s@.take(m as int)[k as int] != p@[k as int]);
            }
            return None;
        }
        k += 1;
    }
    proof {
        assert(s@.take(m as int) =~= p@);
    }
    Some(s.substring_char(m, n))
}

#[derive(Clone, Copy, PartialEq, Eq, Structural, Debug)]
pub enum NoteUuidParseError {
    MissingPrefix,
    Uuid,
}

#[derive(Clone, Copy, PartialEq, Eq, Structural, Debug)]
pub enum NoteLinkParseError {
    MissingPrefix,
    Uuid,
}

/// The note that a heading label declares.
#[derive(Clone, Copy, PartialEq, Eq, Structural, Debug)]
pub struct NoteUuid(pub u128);

/// The note that an anchor target links to.
#[derive(Clone, Copy, PartialEq, Eq, Structural, Debug)]
pub struct NoteLink(pub u128);

/// What the label `s` declares: `note:` then a UUID.
pub open spec fn label_note(s: Seq<char>) -> Result<u128, NoteUuidParseError> {
    match strip_prefix(s, "note:"@) {
        None => Err(NoteUuidParseError::MissingPrefix),
        Some(rest) => match uuid_value(rest) {
            Some(v) => Ok(v),
            None => Err(NoteUuidParseError::Uuid),
        },
    }
}

/// What the anchor target `s` links to: `note://` then a UUID.
pub open spec fn href_note(s: Seq<char>) -> Result<u128, NoteLinkParseError> {
    match strip_prefix(s, "note://"@) {
        None => Err(NoteLinkParseError::MissingPrefix),
        Some(rest) => match uuid_value(rest) {
            Some(v) => Ok(v),
            None => Err(NoteLinkParseError::Uuid),
        },
    }
}

impl NoteUuid {
    /// The note of a label whose text after `note:` parsed as `parsed`.
    pub fn from_parsed(parsed: Option<u128>) -> (r: Result<NoteUuid, NoteUuidParseError>)
        ensures
            match parsed {
                Some(v) => r == Ok::<NoteUuid, NoteUuidParseError>(NoteUuid(v)),
                None => r == Err::<NoteUuid, NoteUuidParseError>(NoteUuidParseError::Uuid),
            },
    {
        match parsed {
            Some(v) => Ok(NoteUuid(v)),
            None => Err(NoteUuidParseError::Uuid),
        }
    }

    pub fn from_str(s: &str) -> (r: Result<NoteUuid, NoteUuidParseError>)
        ensures
            match label_note(s@) {
                Ok(v) => r == Ok::<NoteUuid, NoteUuidParseError>(NoteUuid(v)),
                Err(e) => r == Err::<NoteUuid, NoteUuidParseError>(e),
            },
    {
        match strip_prefix_str(s, "note:") {
            None => Err(NoteUuidParseError::MissingPrefix),
            Some(rest) => NoteUuid::from_parsed(parse_uuid(rest)),
        }
    }
}

impl NoteLink {
    /// The note of an anchor target whose text after `note://` parsed as
    /// `parsed`.
    pub fn from_parsed(parsed: Option<u128>) -> (r: Result<NoteLink, NoteLinkParseError>)
        ensures
            match parsed {
                Some(v) => r == Ok::<NoteLink, NoteLinkParseError>(NoteLink(v)),
                None => r == Err::<NoteLink, NoteLinkParseError>(NoteLinkParseError::Uuid),
            },
    {
        match parsed {
            Some(v) => Ok(NoteLink(v)),
            None => Err(NoteLinkParseError::Uuid),
        }
    }

    pub fn from_str(s: &str) -> (r: Result<NoteLink, NoteLinkParseError>)
        ensures
            match href_note(s@) {
                Ok(v) => r == Ok::<NoteLink, NoteLinkParseError>(NoteLink(v)),
                Err(e) => r == Err::<NoteLink, NoteLinkParseError>(e),
            },
    {
        match strip_prefix_str(s, "note://") {
            None => Err(NoteLinkParseError::MissingPrefix),
            Some(rest) => NoteLink::from_parsed(parse_uuid(rest)),
        }
    }
}

} // verus!
