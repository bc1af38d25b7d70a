//! Realtime message payloads. The core treats a payload as an opaque byte
//! blob owned by the game-rule collaborator; it only queues and fans out.

use vstd::prelude::*;

verus! {

/// One realtime message. Its payload's meaning belongs to the game rules;
/// the core never inspects it.
#[derive(Debug)]
pub struct Message {
    pub payload: Vec<u8>,
}

impl View for Message {
    type V = Seq<u8>;

    open spec fn view(&self) -> Seq<u8> {
        self.payload@
    }
}

impl Message {
    /// Build a message from its raw bytes.
    pub fn new(payload: Vec<u8>) -> (m: Message)
        ensures
            m@ == payload@,
    {
        Message { payload }
    }

    /// An independent copy carrying the same bytes; fan-out queues one copy
    /// per receiving connection.
    pub fn duplicate(&self) -> (m: Message)
        ensures
            m@ == self@,
    {
        let payload = self.payload.clone();
        proof {
            assert forall|i: int| 0 <= i < self.payload@.len() implies payload@[i]
                == self.payload@[i] by {
                assert(cloned::<u8>(self.payload[i], payload[i]));
            }
            assert(payload@ =~= self.payload@);
        }
        Message { payload }
    }
}

} // verus!
