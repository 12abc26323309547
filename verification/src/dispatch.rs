//! Whose message is it?

use vstd::prelude::*;

verus! {

/// Whether a message was sent by the current user. While the own id is not
/// known yet it is empty, and then no message counts as one's own.
pub fn compute_is_self(my_id: &str, sender_id: &str) -> (r: bool)
    ensures
        r == (my_id@.len() > 0 && sender_id@ == my_id@),
{
    !my_id.is_empty() && crate::text::same(sender_id, my_id)
}

/// Nobody's message is one's own while the own id is not known; after that it is the
/// sender who decides.
pub proof fn law_own_messages_are_told_by_sender(my_id: &str, sender_id: &str, own: bool)
    requires
        call_ensures(compute_is_self, (my_id, sender_id), own),
    ensures
        my_id@.len() == 0 ==> !own,
        my_id@.len() > 0 && my_id@ == sender_id@ ==> own,
        my_id@ != sender_id@ ==> !own,
{
}

} // verus!
