//! Object ids.

use vstd::prelude::*;

use crate::outside::oid_hex;
#[allow(unused_imports)]
use crate::outside::hex;
use crate::text::string_of;
use crate::text::chars_of;

verus! {

/// The id of a git object: twenty bytes.
#[derive(Clone, Copy)]
pub struct Oid {
    pub bytes: [u8; 20],
}

/// The contents of an object id.
pub type Id = Seq<u8>;

impl View for Oid {
    type V = Id;

    open spec fn view(&self) -> Id {
        self.bytes@
    }
}

/// The id in hexadecimal, cut to the seven digits that are shown of a commit.
pub open spec fn short(id: Id) -> Seq<char> {
    hex(id).take(7)
}

impl Oid {
    /// Whether two ids are the same.
    pub fn same(&self, other: &Oid) -> (r: bool)
        ensures
            r == (self@ == other@),
    {
        let mut i: usize = 0;
        while i < 20
            invariant
                i <= 20,
                forall|j: int| 0 <= j < i ==> self@[j] == other@[j],
            decreases 20 - i,
        {
            if self.bytes[i] != other.bytes[i] {
                return false;
            }
            i += 1;
        }
        assert(self@ =~= other@);
        true
    }

    /// The id in hexadecimal.
    pub fn to_hex(&self) -> (r: String)
        ensures
            r@ == hex(self@),
    {
        oid_hex(&self.bytes)
    }

    /// The first seven hexadecimal digits of the id.
    pub fn short_hex(&self) -> (r: String)
        ensures
            r@ == short(self@),
    {
        let all = self.to_hex();
        let chars = chars_of(all.as_str());
        let r = string_of(&chars, 0, 7);
        assert(r@ =~= short(self@));
        r
    }
}

} // verus!
