use vstd::prelude::*;

verus! {

/// A four-byte type tag. Two tags are equal when their bytes are; tags have
/// no order.
#[derive(Clone, Copy, Debug, Default, Eq)]
pub struct FourCC {
    pub value: [u8; 4],
}

impl PartialEq for FourCC {
    fn eq(&self, other: &FourCC) -> (r: bool) {
        let r = self.value[0] == other.value[0] && self.value[1] == other.value[1] && self.value[2]
            == other.value[2] && self.value[3] == other.value[3];
        proof {
            if r {
                assert(self.value =~= other.value);
            }
        }
        r
    }
}

impl vstd::std_specs::cmp::PartialEqSpecImpl for FourCC {
    open spec fn obeys_eq_spec() -> bool {
        true
    }

    open spec fn eq_spec(&self, other: &FourCC) -> bool {
        *self == *other
    }
}

impl View for FourCC {
    type V = Seq<u8>;

    open spec fn view(&self) -> Seq<u8> {
        self.value@
    }
}

impl FourCC {
    /// The tag spelled by four characters, each cut to its low eight bits.
    pub fn with(chars: [char; 4]) -> (tag: FourCC)
        ensures
            tag@ == chars@.map_values(|c: char| c as u8),
    {
        FourCC { value: [chars[0] as u8, chars[1] as u8, chars[2] as u8, chars[3] as u8] }
    }

    /// The tag made of the four bytes of `bytes` that start at `at`.
    pub open spec fn at(bytes: Seq<u8>, at: int) -> FourCC {
        FourCC { value: [bytes[at], bytes[at + 1], bytes[at + 2], bytes[at + 3]] }
    }

    /// Tags are equal exactly when they hold the same four bytes.
    pub proof fn lemma_eq_by_view(self, other: FourCC)
        ensures
            (self == other) <==> (self@ == other@),
            self@.len() == 4,
    {
        if self@ == other@ {
            assert(self.value =~= other.value);
        }
    }
}

} // verus!
