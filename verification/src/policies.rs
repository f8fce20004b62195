//! Walking the identity policies of the sender, which the host hands out
//! as bytes: the steps between two reads.
use vstd::prelude::*;
use vstd::bytes::{
    spec_u16_from_le_bytes, spec_u32_from_le_bytes, spec_u64_from_le_bytes, u16_from_le_bytes,
    u32_from_le_bytes, u64_from_le_bytes,
};

verus! {

/// The length of the head of a policy: two bytes for the length of what
/// follows them, four for the identity provider, eight each for the two
/// times, two for the number of attributes.
pub const POLICY_HEAD_SIZE: usize = 24;

/// The longest value an attribute can have.
pub const MAX_ATTRIBUTE_SIZE: u8 = 31;

/// A walk over the attributes of one policy.
#[derive(Debug, Clone, Copy, PartialEq, Eq, Structural)]
pub struct AttributesCursor {
    /// The place of the next attribute among the bytes of the policies.
    pub current_position: u32,
    /// The number of attributes still to come.
    pub remaining_items: u16,
}

/// One policy: who issued it, from when to when it holds, and its
/// attributes.
#[derive(Debug, Clone, Copy, PartialEq, Eq, Structural)]
pub struct Policy {
    pub identity_provider: u32,
    /// In milliseconds since the start of 1970.
    pub created_at: u64,
    /// In milliseconds since the start of 1970.
    pub valid_to: u64,
    pub items: AttributesCursor,
}

/// A walk over the policies.
#[derive(Debug, Clone, Copy, PartialEq, Eq, Structural)]
pub struct PoliciesIterator {
    /// The place of the next policy among the bytes of the policies.
    pub pos: u32,
    /// The number of policies still to come.
    pub remaining_items: u16,
}

/// The policy whose head is `head` and stands at `pos`.
pub open spec fn policy_at(head: Seq<u8>, pos: u32) -> Policy {
    Policy {
        identity_provider: spec_u32_from_le_bytes(head.subrange(2, 6)),
        created_at: spec_u64_from_le_bytes(head.subrange(6, 14)),
        valid_to: spec_u64_from_le_bytes(head.subrange(14, 22)),
        items: AttributesCursor {
            current_position: (pos + POLICY_HEAD_SIZE) as u32,
            remaining_items: spec_u16_from_le_bytes(head.subrange(22, 24)),
        },
    }
}

/// Where the policy behind the one with head `head` at `pos` stands: behind
/// the two bytes of the length and as many bytes as they say.
pub open spec fn policy_end(head: Seq<u8>, pos: u32) -> int {
    pos + spec_u16_from_le_bytes(head.subrange(0, 2)) + 2
}

impl PoliciesIterator {
    /// The walk over the policies whose number the first two bytes give.
    pub fn new(count: &[u8]) -> (it: PoliciesIterator)
        requires
            count@.len() == 2,
        ensures
            it.pos == 2,
            it.remaining_items == spec_u16_from_le_bytes(count@),
    {
        PoliciesIterator { pos: 2, remaining_items: u16_from_le_bytes(count) }
    }

    /// The number of policies still to come.
    pub fn len(&self) -> (n: usize)
        ensures
            n == self.remaining_items,
    {
        self.remaining_items as usize
    }

    /// The number of policies still to come, as its lower bound and its
    /// upper bound.
    pub fn size_hint(&self) -> (r: (usize, Option<usize>))
        ensures
            r.0 == self.remaining_items,
            r.1 == Some(self.remaining_items as usize),
    {
        let rem = self.remaining_items as usize;
        (rem, Some(rem))
    }

    /// The next policy, from the bytes `head` of its head, which stand at
    /// `pos`; or nothing where no policy is left, in which case `head` is
    /// not looked at.
    pub fn next(&mut self, head: &[u8]) -> (r: Option<Policy>)
        requires
            old(self).remaining_items > 0 ==> head@.len() == POLICY_HEAD_SIZE && old(self).pos
                + POLICY_HEAD_SIZE <= u32::MAX && policy_end(head@, old(self).pos) <= u32::MAX,
        ensures
            old(self).remaining_items == 0 ==> r is None && *final(self) == *old(self),
            old(self).remaining_items > 0 ==> r == Some(policy_at(head@, old(self).pos))
                && final(self).pos == policy_end(head@, old(self).pos)
                && final(self).remaining_items == old(self).remaining_items - 1,
    {
        if self.remaining_items == 0 {
            return None;
        }
        let skip = u16_from_le_bytes(vstd::slice::slice_subrange(head, 0, 2));
        let identity_provider = u32_from_le_bytes(vstd::slice::slice_subrange(head, 2, 6));
        let created_at = u64_from_le_bytes(vstd::slice::slice_subrange(head, 6, 14));
        let valid_to = u64_from_le_bytes(vstd::slice::slice_subrange(head, 14, 22));
        let remaining_items = u16_from_le_bytes(vstd::slice::slice_subrange(head, 22, 24));
        let attributes_start = self.pos + 24;
        self.pos = self.pos + (skip as u32 + 2);
        self.remaining_items = self.remaining_items - 1;
        Some(
            Policy {
                identity_provider,
                created_at,
                valid_to,
                items: AttributesCursor { current_position: attributes_start, remaining_items },
            },
        )
    }
}

impl Policy {
    /// Who issued the policy.
    pub fn identity_provider(&self) -> (r: u32)
        ensures
            r == self.identity_provider,
    {
        self.identity_provider
    }

    /// From when the policy holds.
    pub fn created_at(&self) -> (r: u64)
        ensures
            r == self.created_at,
    {
        self.created_at
    }

    /// Until when the policy holds.
    pub fn valid_to(&self) -> (r: u64)
        ensures
            r == self.valid_to,
    {
        self.valid_to
    }

    /// The tag of the next attribute and the length of its value, from the
    /// two bytes `tag_value_len` that stand at the cursor, of which
    /// `num_read` could be read. The cursor moves past what was read.
    /// Nothing where no attribute is left, in which case nothing moves, or
    /// where the length is more than a value can have.
    pub fn next_item_head(&mut self, tag_value_len: &[u8], num_read: u32) -> (r: Option<(u8, u8)>)
        requires
            tag_value_len@.len() == 2,
            num_read <= 2,
            old(self).items.remaining_items > 0 ==> old(self).items.current_position + num_read
                <= u32::MAX,
        ensures
            final(self).identity_provider == old(self).identity_provider,
            final(self).created_at == old(self).created_at,
            final(self).valid_to == old(self).valid_to,
            final(self).items.remaining_items == old(self).items.remaining_items,
            old(self).items.remaining_items == 0 ==> r is None && *final(self) == *old(self),
            old(self).items.remaining_items > 0 ==> final(self).items.current_position
                == old(self).items.current_position + num_read && r == if tag_value_len@[1]
                > MAX_ATTRIBUTE_SIZE {
                None
            } else {
                Some((tag_value_len@[0], tag_value_len@[1]))
            },
    {
        if self.items.remaining_items == 0 {
            return None;
        }
        self.items.current_position = self.items.current_position + num_read;
        if tag_value_len[1] > MAX_ATTRIBUTE_SIZE {
            return None;
        }
        Some((tag_value_len[0], tag_value_len[1]))
    }

    /// Moves the cursor past the value of an attribute, of which
    /// `num_read` bytes were read, and counts the attribute as done.
    pub fn next_item_done(&mut self, num_read: u32)
        requires
            old(self).items.remaining_items > 0,
            old(self).items.current_position + num_read <= u32::MAX,
        ensures
            final(self).identity_provider == old(self).identity_provider,
            final(self).created_at == old(self).created_at,
            final(self).valid_to == old(self).valid_to,
            final(self).items.current_position == old(self).items.current_position + num_read,
            final(self).items.remaining_items == old(self).items.remaining_items - 1,
    {
        self.items.current_position = self.items.current_position + num_read;
        self.items.remaining_items = self.items.remaining_items - 1;
    }
}

} // verus!
