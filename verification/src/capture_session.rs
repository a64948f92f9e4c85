//! Identity of one capture session.
use crate::text;
use vstd::prelude::*;
use vstd::string::*;

verus! {

/// Sixteen bytes that are not all zero.
#[derive(Clone, Copy, Debug, PartialEq, Eq)]
pub struct CaptureSessionId {
    bytes: [u8; 16],
}

impl View for CaptureSessionId {
    type V = Seq<u8>;

    closed spec fn view(&self) -> Seq<u8> {
        self.bytes@
    }
}

/// Whether sixteen bytes can identify a session.
pub open spec fn is_session(bytes: Seq<u8>) -> bool {
    bytes.len() == 16 && exists|i: int| 0 <= i < 16 && #[trigger] bytes[i] != 0
}

impl CaptureSessionId {
    #[verifier::type_invariant]
    pub open spec fn identifies(self) -> bool {
        is_session(self@)
    }

    pub fn new(bytes: [u8; 16]) -> (result: Option<Self>)
        ensures
            match result {
                Some(session) => is_session(bytes@) && session@ == bytes@,
                None => !is_session(bytes@),
            },
    {
        let mut index: usize = 0;
        while index < 16
            invariant
                index <= 16,
                forall|i: int| 0 <= i < index ==> #[trigger] bytes@[i] == 0,
            decreases 16 - index,
        {
            if bytes[index] != 0 {
                assert(bytes@[index as int] != 0);
                return Some(CaptureSessionId { bytes });
            }
            index = index + 1;
        }
        None
    }

    pub fn as_bytes(&self) -> (result: &[u8])
        ensures
            result@ == self@,
    {
        let bytes: &[u8] = &self.bytes;
        bytes
    }

    /// The bytes as lower-case hexadecimal digits.
    pub fn to_hex(&self) -> (result: String)
        ensures
            result@ == text::hex_text(self@),
    {
        text::hex(self.as_bytes())
    }
}

/// A session has sixteen bytes, and any of them that is not zero makes it one.
pub proof fn sessions_are_not_all_zero(bytes: Seq<u8>, at: int)
    requires
        bytes.len() == 16,
        0 <= at < 16,
    ensures
        bytes[at] > 0 ==> is_session(bytes),
        (forall|i: int| 0 <= i < 16 ==> #[trigger] bytes[i] == 0) ==> !is_session(bytes),
        !is_session(bytes.drop_last()),
{
}

} // verus!
