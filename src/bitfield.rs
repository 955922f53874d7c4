use vstd::prelude::*;

verus! {

/// Whether bit `i` is set in a packed bitmap: bit `i` lives in byte `i / 8`,
/// at position `i % 8` counted from the least significant bit.
pub open spec fn bit_at(bytes: Seq<u8>, i: int) -> bool {
    bytes[i / 8] & (1u8 << ((i % 8) as u8)) != 0
}

/// The bytes of a bitmap after bit `i` was set.
pub open spec fn marked(bytes: Seq<u8>, i: int) -> Seq<u8> {
    bytes.update(i / 8, bytes[i / 8] | (1u8 << ((i % 8) as u8)))
}

/// Number of bytes needed to hold `n` bits.
pub open spec fn bytes_for(n: nat) -> nat {
    if n % 8 == 0 { n / 8 } else { n / 8 + 1 }
}

/// `n` zero bytes.
pub open spec fn zeros(n: nat) -> Seq<u8> {
    Seq::new(n, |k: int| 0u8)
}

/// A set of piece indices stored as packed bytes.
pub struct Bitfield(pub Vec<u8>);

impl View for Bitfield {
    type V = Seq<bool>;

    /// One boolean per addressable bit: eight per stored byte.
    open spec fn view(&self) -> Seq<bool> {
        Seq::new(self.0@.len() * 8, |i: int| bit_at(self.0@, i))
    }
}

proof fn lemma_or_mask(b: u8, k: u8, j: u8)
    by (bit_vector)
    requires
        k < 8,
        j < 8,
    ensures
        ((b | (1u8 << k)) & (1u8 << j) != 0) == (j == k || b & (1u8 << j) != 0),
{
}

proof fn lemma_zero_byte(k: u8)
    by (bit_vector)
    requires
        k < 8,
    ensures
        0u8 & (1u8 << k) == 0,
{
}

/// Marking bit `i` sets that bit and leaves every other bit as it was.
pub proof fn lemma_mark_sets_only(bytes: Seq<u8>, i: int)
    requires
        0 <= i < bytes.len() * 8,
    ensures
        marked(bytes, i).len() == bytes.len(),
        bit_at(marked(bytes, i), i),
        forall|j: int|
            0 <= j < bytes.len() * 8 && j != i ==> #[trigger] bit_at(marked(bytes, i), j)
                == bit_at(bytes, j),
{
    let m = marked(bytes, i);
    lemma_or_mask(bytes[i / 8], (i % 8) as u8, (i % 8) as u8);
    assert forall|j: int| 0 <= j < bytes.len() * 8 && j != i implies #[trigger] bit_at(m, j)
        == bit_at(bytes, j) by {
        if j / 8 == i / 8 {
            assert(j % 8 != i % 8);
            lemma_or_mask(bytes[i / 8], (i % 8) as u8, (j % 8) as u8);
        }
    }
}

/// A bitmap made for `n` pieces has room for each of them, and none is set.
pub proof fn lemma_empty_has_nothing(n: nat)
    ensures
        forall|i: int|
            0 <= i < n ==> i < bytes_for(n) * 8 && !#[trigger] bit_at(
                zeros(bytes_for(n)),
                i,
            ),
{
    assert forall|i: int| 0 <= i < n implies i < bytes_for(n) * 8 && !#[trigger] bit_at(
        zeros(bytes_for(n)),
        i,
    ) by {
        lemma_zero_byte((i % 8) as u8);
    }
}

impl Bitfield {
    /// A bitmap with room for `pieces` bits, all clear.
    pub fn empty(pieces: usize) -> (r: Self)
        ensures
            r.0@ == zeros(bytes_for(pieces as nat)),
            r@.len() >= pieces,
            forall|i: int| 0 <= i < r@.len() ==> !#[trigger] r@[i],
    {
        let entries: usize = if pieces % 8 == 0 { pieces / 8 } else { pieces / 8 + 1 };
        let r = Bitfield(vec![0u8; entries]);
        proof {
            assert(r.0@ =~= zeros(bytes_for(pieces as nat)));
            assert forall|i: int| 0 <= i < r@.len() implies !#[trigger] r@[i] by {
                lemma_zero_byte((i % 8) as u8);
            }
        }
        r
    }

    /// Wraps a received bitmap payload as it is.
    pub fn from(pieces: Vec<u8>) -> (r: Self)
        ensures
            r.0@ == pieces@,
    {
        Bitfield(pieces)
    }

    /// Whether piece `index` is in the set. Indices beyond the stored bytes
    /// are not accepted.
    pub fn has_piece(&self, index: &usize) -> (r: bool)
        requires
            *index < self@.len(),
        ensures
            r == self@[*index as int],
            r == bit_at(self.0@, *index as int),
    {
        let i = *index;
        let byte = self.0[i / 8];
        let mask: u8 = 1u8 << ((i % 8) as u8);
        byte & mask != 0
    }

    /// Adds piece `index` to the set; marking a piece twice changes nothing more.
    pub fn set_piece(&mut self, index: &usize)
        requires
            *index < old(self)@.len(),
        ensures
            final(self).0@ == marked(old(self).0@, *index as int),
            final(self)@ == old(self)@.update(*index as int, true),
    {
        let i = *index;
        let mask: u8 = 1u8 << ((i % 8) as u8);
        let byte = self.0[i / 8] | mask;
        self.0.set(i / 8, byte);
        proof {
            lemma_mark_sets_only(old(self).0@, i as int);
            assert(self@ =~= old(self)@.update(i as int, true));
        }
    }
}

} // verus!
