//! The checksum of file contents.
use crc32fast::Hasher;
use vstd::prelude::*;

verus! {

/// A remainder with one more bit taken in, by the polynomial of CRC-32, the lowest
/// bit first.
pub open spec fn crc32_bit(state: u32) -> u32 {
    if state & 1 == 1 {
        (state >> 1) ^ 0xedb8_8320
    } else {
        state >> 1
    }
}

/// A remainder with one more byte taken in.
pub open spec fn crc32_byte(state: u32, byte: u8) -> u32 {
    let s = state ^ byte as u32;
    let s = crc32_bit(crc32_bit(crc32_bit(crc32_bit(s))));
    crc32_bit(crc32_bit(crc32_bit(crc32_bit(s))))
}

/// A remainder with more bytes taken in.
pub open spec fn crc32_remainder(state: u32, data: Seq<u8>) -> u32
    decreases data.len(),
{
    if data.len() == 0 {
        state
    } else {
        crc32_byte(crc32_remainder(state, data.drop_last()), data.last())
    }
}

/// The CRC-32 of some bytes whose own CRC-32 is `crc`, followed by `data`.
pub open spec fn crc32_continued(crc: u32, data: Seq<u8>) -> u32 {
    !crc32_remainder(!crc, data)
}

/// The CRC-32 of `data`.
pub open spec fn crc32_of(data: Seq<u8>) -> u32 {
    crc32_continued(0, data)
}

proof fn remainder_goes_on(state: u32, before: Seq<u8>, data: Seq<u8>)
    ensures
        crc32_remainder(crc32_remainder(state, before), data) == crc32_remainder(
            state,
            before + data,
        ),
    decreases data.len(),
{
    if data.len() == 0 {
        assert(before + data =~= before);
    } else {
        assert((before + data).drop_last() =~= before + data.drop_last());
        remainder_goes_on(state, before, data.drop_last());
    }
}

/// To take in two pieces one after the other is to take in both at once.
pub proof fn crc32_goes_on(crc: u32, before: Seq<u8>, data: Seq<u8>)
    ensures
        crc32_continued(crc32_continued(crc, before), data) == crc32_continued(crc, before + data),
{
    let state = crc32_remainder(!crc, before);
    assert(!(!state) == state) by (bit_vector);
    remainder_goes_on(!crc, before, data);
}

/// `crc32fast::Hasher` made by `new_with_initial`, fed by `update` and asked by
/// `finalize`: the checksum goes on from `crc` over `data`.
#[verifier::external_body]
pub(crate) fn update(crc: u32, data: &[u8]) -> (r: u32)
    ensures
        r == crc32_continued(crc, data@),
{
    let mut hasher = Hasher::new_with_initial(crc);
    hasher.update(data);
    hasher.finalize()
}

/// Computes the CRC-32 of `data`.
pub fn crc32(data: &[u8]) -> (r: u32)
    ensures
        r == crc32_of(data@),
{
    update(0, data)
}

/// A checksum under way.
pub struct Crc32 {
    value: u32,
    seen: Ghost<Seq<u8>>,
}

impl Crc32 {
    #[verifier::type_invariant]
    spec fn holds(self) -> bool {
        self.value == crc32_of(self.seen@)
    }

    /// The bytes that were taken in so far.
    pub closed spec fn view(&self) -> Seq<u8> {
        self.seen@
    }

    /// A checksum that has taken in nothing yet.
    pub fn new() -> (c: Crc32)
        ensures
            c@ == Seq::<u8>::empty(),
    {
        proof {
            let zero: u32 = 0;
            assert(!(!zero) == zero) by (bit_vector);
        }
        Crc32 { value: 0, seen: Ghost(Seq::empty()) }
    }

    /// Takes in more bytes.
    pub fn update(&mut self, data: &[u8])
        ensures
            final(self)@ == old(self)@ + data@,
    {
        proof {
            use_type_invariant(&*self);
            crc32_goes_on(0, self.seen@, data@);
        }
        let value: u32 = self::update(self.value, data);
        *self = Crc32 { value, seen: Ghost(self.seen@ + data@) };
    }

    /// The checksum of what was taken in.
    pub fn value(&self) -> (r: u32)
        ensures
            r == crc32_of(self@),
    {
        proof {
            use_type_invariant(self);
        }
        self.value
    }
}

} // verus!
