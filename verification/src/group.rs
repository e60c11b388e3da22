//! Tab groups, for engine context sharing.

use vstd::prelude::*;
use vstd::string::StringExecFns;

use crate::config::{hex_char, pow16};

verus! {

/// Raw UUID value of the default tab group: the nil UUID.
pub const NO_GROUP_UUID: u128 = 0;

/// Hexadecimal digit `k` (0 to 31, most significant first) of a UUID value.
pub open spec fn uuid_nibble(v: u128, k: int) -> nat {
    ((v as nat) / pow16((31 - k) as nat)) % 16
}

/// Number of hyphens before position `j` of hyphenated UUID text.
pub open spec fn hyphens_before(j: int) -> int {
    if j < 8 {
        0
    } else if j < 13 {
        1
    } else if j < 18 {
        2
    } else if j < 23 {
        3
    } else {
        4
    }
}

/// Hyphenated lowercase text of a UUID, such as
/// `67e55044-10b1-426f-9247-bb680e5fe0c8`.
pub open spec fn uuid_text(v: u128) -> Seq<char> {
    Seq::new(
        36,
        |j: int|
            if j == 8 || j == 13 || j == 18 || j == 23 {
                '-'
            } else {
                hex_char(uuid_nibble(v, j - hyphens_before(j)))
            },
    )
}

/// Whether a UUID value is marked as a random (version 4) UUID of the
/// RFC 4122 variant.
pub open spec fn is_random_uuid(v: u128) -> bool {
    &&& (v >> 76u128) & 0xfu128 == 4
    &&& (v >> 62u128) & 0x3u128 == 2
}

/// `uuid::Uuid::new_v4`, as the UUID's 128-bit value.
///
/// Trusted: the `uuid` crate masks random bits so that the version nibble is
/// 4 and the variant bits are `10`; the other bits are random and nothing is
/// claimed of them.
#[verifier::external_body]
fn random_uuid() -> (v: u128)
    ensures
        is_random_uuid(v),
{
    uuid::Uuid::new_v4().as_u128()
}

/// `ToString::to_string` of `uuid::Uuid::from_u128(v)`.
///
/// Trusted: the `uuid` crate formats a UUID as its 32 hexadecimal digits in
/// lowercase, most significant first, with hyphens after the 8th, 12th, 16th
/// and 20th digit.
#[verifier::external_body]
fn uuid_string(v: u128) -> (s: String)
    ensures
        s@ == uuid_text(v),
{
    uuid::Uuid::from_u128(v).to_string()
}

/// Unique identifier for a tab group: the raw value of its UUID.
#[derive(PartialEq, Eq, Structural, Copy, Clone, Debug, Hash)]
pub struct GroupId {
    uuid: u128,
}

impl GroupId {
    /// The group's UUID value.
    pub closed spec fn value(&self) -> u128 {
        self.uuid
    }

    /// Get the raw group UUID value.
    pub fn uuid(&self) -> (v: u128)
        ensures
            v == self.value(),
    {
        self.uuid
    }
}

impl Default for GroupId {
    /// The default group's ID.
    fn default() -> (id: Self)
        ensures
            id.value() == NO_GROUP_UUID,
    {
        GroupId { uuid: NO_GROUP_UUID }
    }
}

/// Tab group, for engine context sharing.
pub struct Group {
    /// Globally unique group ID.
    id: GroupId,
    /// Human-readable group identifier.
    pub label: String,
    /// Whether data for this group should be persisted.
    pub ephemeral: bool,
}

/// Abstract state of a tab group.
pub struct GroupView {
    pub uuid: u128,
    pub label: Seq<char>,
    pub ephemeral: bool,
}

impl View for Group {
    type V = GroupView;

    closed spec fn view(&self) -> GroupView {
        GroupView { uuid: self.id.uuid, label: self.label@, ephemeral: self.ephemeral }
    }
}

impl Group {

    /// Create a new tab group with a random UUID, labelled by that UUID.
    pub fn new(ephemeral: bool) -> (g: Self)
        ensures
            is_random_uuid(g@.uuid),
            g@.label == uuid_text(g@.uuid),
            g@.ephemeral == ephemeral,
    {
        let uuid = random_uuid();
        let label = uuid_string(uuid);
        Group { id: GroupId { uuid }, label, ephemeral }
    }

    /// Create a tab group with a fixed UUID.
    ///
    /// Two different tab groups must never be created with the same UUID.
    pub fn with_uuid(uuid: u128, label: String, ephemeral: bool) -> (g: Self)
        ensures
            g@ == (GroupView { uuid, label: label@, ephemeral }),
    {
        Group { id: GroupId { uuid }, label, ephemeral }
    }

    /// Get the default tab group.
    pub fn none() -> (g: Self)
        ensures
            g@ == (GroupView { uuid: NO_GROUP_UUID, label: "Default"@, ephemeral: false }),
    {
        Group { id: GroupId { uuid: NO_GROUP_UUID }, label: String::from_str("Default"), ephemeral: false }
    }

    /// Group that a restored session goes into: the default group for the
    /// nil UUID; otherwise the group stored under that UUID, or, when none is
    /// stored, a group with that UUID labelled `-`.
    pub fn restored(group_id: u128, stored: Option<Group>) -> (g: Self)
        ensures
            g@ == (if group_id == NO_GROUP_UUID {
                GroupView { uuid: NO_GROUP_UUID, label: "Default"@, ephemeral: false }
            } else {
                match stored {
                    Some(s) => s@,
                    None => GroupView { uuid: group_id, label: "-"@, ephemeral: false },
                }
            }),
    {
        if group_id == NO_GROUP_UUID {
            Group::none()
        } else {
            match stored {
                Some(group) => group,
                None => Group::with_uuid(group_id, String::from_str("-"), false),
            }
        }
    }

    /// Whether data for this group is kept from being persisted.
    pub fn is_ephemeral(&self) -> (e: bool)
        ensures
            e == self@.ephemeral,
    {
        self.ephemeral
    }

    /// Get this group's ID.
    pub fn id(&self) -> (id: GroupId)
        ensures
            id.value() == self@.uuid,
    {
        self.id
    }
}

} // verus!
