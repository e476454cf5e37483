//! Device identifiers. On the wire a device is named by its UUID in the
//! canonical hyphenated, lower-case hex form; the transport never computes
//! with the identifier, so this crate models it as exactly those 36 bytes,
//! validated once at construction.

use vstd::prelude::*;

use crate::jsonstr::is_hex_lower;

verus! {

/// The canonical textual form of a UUID: 36 bytes, hyphens at the four
/// fixed positions, lower-case hex digits everywhere else.
pub open spec fn valid_uuid(s: Seq<u8>) -> bool {
    &&& s.len() == 36
    &&& forall|i: int|
        0 <= i < 36 ==> (if i == 8 || i == 13 || i == 18 || i == 23 {
            s[i] == '-' as u8
        } else {
            is_hex_lower(#[trigger] s[i])
        })
}

/// A validated device identifier.
#[derive(Debug)]
pub struct DeviceId {
    text: Vec<u8>,
}

impl View for DeviceId {
    type V = Seq<u8>;

    closed spec fn view(&self) -> Seq<u8> {
        self.text@
    }
}

impl DeviceId {
    /// A `DeviceId` always holds a canonical UUID text.
    #[verifier::type_invariant]
    pub closed spec fn inv(&self) -> bool {
        valid_uuid(self.text@)
    }

    /// What the type invariant means for the identifier's value.
    pub proof fn lemma_inv_valid(&self)
        requires
            self.inv(),
        ensures
            valid_uuid(self@),
    {
    }

    /// Accepts exactly the canonical UUID texts.
    pub fn new(text: Vec<u8>) -> (r: Option<DeviceId>)
        ensures
            match r {
                Some(id) => valid_uuid(text@) && id@ == text@,
                None => !valid_uuid(text@),
            },
    {
        if text.len() != 36 {
            return None;
        }
        let mut i: usize = 0;
        while i < 36
            invariant
                0 <= i <= 36,
                text@.len() == 36,
                forall|j: int|
                    0 <= j < i ==> (if j == 8 || j == 13 || j == 18 || j == 23 {
                        text@[j] == '-' as u8
                    } else {
                        is_hex_lower(#[trigger] text@[j])
                    }),
            decreases 36 - i,
        {
            let b = text[i];
            if i == 8 || i == 13 || i == 18 || i == 23 {
                if b != '-' as u8 {
                    return None;
                }
            } else {
                let hex = ('0' as u8 <= b && b <= '9' as u8) || ('a' as u8 <= b && b <= 'f' as u8);
                if !hex {
                    return None;
                }
            }
            i = i + 1;
        }
        Some(DeviceId { text })
    }

    /// The identifier's 36 wire bytes.
    pub fn as_bytes(&self) -> (r: &Vec<u8>)
        ensures
            r@ == self@,
            valid_uuid(self@),
    {
        proof {
            use_type_invariant(self);
        }
        &self.text
    }

    /// A second identifier with the same text.
    pub fn duplicate(&self) -> (r: DeviceId)
        ensures
            r@ == self@,
    {
        proof {
            use_type_invariant(self);
        }
        let mut text: Vec<u8> = Vec::new();
        text.extend_from_slice(self.text.as_slice());
        proof {
            assert(text@ =~= self.text@);
        }
        DeviceId { text }
    }
}

} // verus!
