use core::marker::PhantomData;
use vstd::prelude::*;

verus! {

/// A streaming byte sink: the part of a hash function that absorbs input.
pub trait Digest: Sized {
    /// Every byte fed so far, in the order it was fed.
    spec fn absorbed(&self) -> Seq<u8>;

    /// A hasher that has absorbed nothing yet.
    fn new() -> (hasher: Self)
        ensures
            hasher.absorbed() == Seq::<u8>::empty(),
    ;

    /// Feeds `data`. It can be called repeatedly: what counts is the
    /// concatenation of all that was fed.
    fn input(&mut self, data: &[u8])
        ensures
            final(self).absorbed() == old(self).absorbed() + data@,
    ;
}

/// A hash function with digests of type `Output`. All hashing in this crate
/// goes through this trait, so the function can be exchanged.
pub trait Hasher<Output>: Digest {
    /// The hash function itself: the digest of a whole preimage. Being a
    /// function, it gives the same digest for the same bytes.
    spec fn digest(preimage: Seq<u8>) -> Output;

    /// Finishes: the digest of all that was fed.
    fn output(self) -> (out: Output)
        ensures
            out == Self::digest(self.absorbed()),
    ;
}

/// A value that can be hashed: it says which bytes stand for it.
pub trait Hashable<H: Digest> {
    /// The canonical encoding of this value: the bytes it contributes to a preimage.
    spec fn preimage(&self) -> Seq<u8>;

    /// Feeds this value's encoding to `hasher`.
    fn hash(&self, hasher: &mut H)
        ensures
            final(hasher).absorbed() == old(hasher).absorbed() + self.preimage(),
    ;
}

/// The BLAKE2s digest, 32 bytes wide, of `preimage`.
pub uninterp spec fn blake2s_256(preimage: Seq<u8>) -> [u8; 32];

/// Calls `blake2::Blake2s::digest`, which makes a fresh unkeyed BLAKE2s
/// state with 32 bytes of output, feeds it `data` and finishes. Trusted: the
/// result depends on the bytes of `data` alone.
#[verifier::external_body]
fn blake2s_digest(data: &[u8]) -> (out: [u8; 32])
    ensures
        out == blake2s_256(data@),
{
    <blake2::Blake2s as blake2::Digest>::digest(data).into()
}

/// BLAKE2s with 32 bytes of output. It keeps what it is fed and hashes it
/// in one go when the digest is asked for.
#[derive(Debug)]
pub struct Blake2s {
    pending: Vec<u8>,
}

impl Digest for Blake2s {
    closed spec fn absorbed(&self) -> Seq<u8> {
        self.pending@
    }

    fn new() -> (hasher: Self) {
        Blake2s { pending: Vec::new() }
    }

    fn input(&mut self, data: &[u8]) {
        self.pending.extend_from_slice(data);
        assert(self.pending@ =~= old(self).pending@ + data@);
    }
}

impl Hasher<[u8; 32]> for Blake2s {
    open spec fn digest(preimage: Seq<u8>) -> [u8; 32] {
        blake2s_256(preimage)
    }

    fn output(self) -> (out: [u8; 32]) {
        blake2s_digest(self.pending.as_slice())
    }
}

impl<H: Digest> Hashable<H> for u8 {
    open spec fn preimage(&self) -> Seq<u8> {
        seq![*self]
    }

    fn hash(&self, hasher: &mut H) {
        let bytes: [u8; 1] = [*self];
        hasher.input(bytes.as_slice());
        assert(bytes@ =~= seq![*self]);
    }
}

/// The big-endian encoding of `x`: eight bytes, most significant first.
pub open spec fn be_bytes(x: u64) -> Seq<u8> {
    seq![
        (x / 0x0100_0000_0000_0000) as u8,
        (x / 0x0001_0000_0000_0000 % 256) as u8,
        (x / 0x0000_0100_0000_0000 % 256) as u8,
        (x / 0x0000_0001_0000_0000 % 256) as u8,
        (x / 0x0000_0000_0100_0000 % 256) as u8,
        (x / 0x0000_0000_0001_0000 % 256) as u8,
        (x / 0x0000_0000_0000_0100 % 256) as u8,
        (x % 256) as u8,
    ]
}

impl<H: Digest> Hashable<H> for u64 {
    open spec fn preimage(&self) -> Seq<u8> {
        be_bytes(*self)
    }

    fn hash(&self, hasher: &mut H) {
        let x: u64 = *self;
        let bytes: [u8; 8] = [
            (x >> 56) as u8,
            #[verifier::truncate] ((x >> 48) as u8),
            #[verifier::truncate] ((x >> 40) as u8),
            #[verifier::truncate] ((x >> 32) as u8),
            #[verifier::truncate] ((x >> 24) as u8),
            #[verifier::truncate] ((x >> 16) as u8),
            #[verifier::truncate] ((x >> 8) as u8),
            #[verifier::truncate] (x as u8),
        ];
        assert(bytes@ =~= be_bytes(x)) by {
            assert(x >> 56 == x / 0x0100_0000_0000_0000) by (bit_vector);
            assert((x >> 48) as u8 == (x / 0x0001_0000_0000_0000 % 256) as u8) by (bit_vector);
            assert((x >> 40) as u8 == (x / 0x0000_0100_0000_0000 % 256) as u8) by (bit_vector);
            assert((x >> 32) as u8 == (x / 0x0000_0001_0000_0000 % 256) as u8) by (bit_vector);
            assert((x >> 24) as u8 == (x / 0x0000_0000_0100_0000 % 256) as u8) by (bit_vector);
            assert((x >> 16) as u8 == (x / 0x0000_0000_0001_0000 % 256) as u8) by (bit_vector);
            assert((x >> 8) as u8 == (x / 0x0000_0000_0000_0100 % 256) as u8) by (bit_vector);
            assert(x as u8 == (x % 256) as u8) by (bit_vector);
        }
        hasher.input(bytes.as_slice());
    }
}

/// The encodings of `items`, one after the other in order.
pub open spec fn concat_preimages<H: Digest, T: Hashable<H>>(items: Seq<T>) -> Seq<u8>
    decreases items.len(),
{
    if items.len() == 0 {
        Seq::empty()
    } else {
        concat_preimages::<H, T>(items.drop_last()) + items.last().preimage()
    }
}

impl<H: Digest, T: Hashable<H>> Hashable<H> for [T] {
    open spec fn preimage(&self) -> Seq<u8> {
        concat_preimages::<H, T>(self@)
    }

    fn hash(&self, hasher: &mut H) {
        let mut i: usize = 0;
        assert(self@.take(0) =~= Seq::<T>::empty());
        while i < self.len()
            invariant
                i <= self.len(),
                hasher.absorbed() == old(hasher).absorbed() + concat_preimages::<H, T>(
                    self@.take(i as int),
                ),
            decreases self.len() - i,
        {
            self[i].hash(hasher);
            proof {
                let next = self@.take(i + 1);
                assert(next.drop_last() =~= self@.take(i as int));
                assert(next.last() == self@[i as int]);
                assert(hasher.absorbed() =~= old(hasher).absorbed() + concat_preimages::<H, T>(
                    next,
                ));
            }
            i += 1;
        }
        assert(self@.take(i as int) =~= self@);
    }
}

impl<H: Digest, T: Hashable<H>> Hashable<H> for [T; 32] {
    open spec fn preimage(&self) -> Seq<u8> {
        concat_preimages::<H, T>(self@)
    }

    fn hash(&self, hasher: &mut H) {
        self.as_slice().hash(hasher);
    }
}

impl<H: Digest, A: Hashable<H>, B: Hashable<H>> Hashable<H> for (&A, &B) {
    open spec fn preimage(&self) -> Seq<u8> {
        self.0.preimage() + self.1.preimage()
    }

    fn hash(&self, hasher: &mut H) {
        self.0.hash(hasher);
        self.1.hash(hasher);
        assert(hasher.absorbed() =~= old(hasher).absorbed() + (self.0.preimage()
            + self.1.preimage()));
    }
}

/// A sequence of bytes is its own encoding.
pub proof fn lemma_bytes_encode_as_themselves<H: Digest>(bytes: Seq<u8>)
    ensures
        concat_preimages::<H, u8>(bytes) == bytes,
    decreases bytes.len(),
{
    if bytes.len() > 0 {
        lemma_bytes_encode_as_themselves::<H>(bytes.drop_last());
        assert(bytes.drop_last() + seq![bytes.last()] =~= bytes);
    }
}

/// A digest tagged with the domain `T` of the value that was hashed and the
/// hash function `H` that produced it.
#[derive(Debug)]
pub struct Hashed<T, H: Hasher<Output>, Output> {
    pub hash: Output,
    _spook: PhantomData<(T, H)>,
}

impl<T, H: Hasher<O>, O> View for Hashed<T, H, O> {
    type V = O;

    /// The digest itself, without its tags.
    closed spec fn view(&self) -> O {
        self.hash
    }
}

impl<T, H: Hasher<O>, O> Hashed<T, H, O> {
    /// Tags a digest that was computed elsewhere.
    pub fn prehashed(hash: O) -> (hashed: Self)
        ensures
            hashed@ == hash,
    {
        let _spook = PhantomData;
        Self { hash, _spook }
    }

    /// The digest itself.
    pub fn digest(&self) -> (digest: &O)
        ensures
            *digest == self@,
    {
        &self.hash
    }
}

impl<T, H: Hasher<O>, O: Copy> Clone for Hashed<T, H, O> {
    fn clone(&self) -> (copy: Self)
        ensures
            copy@ == self@,
    {
        Hashed { hash: self.hash, _spook: PhantomData }
    }
}

impl<T, H: Hasher<[u8; 32]>> PartialEq for Hashed<T, H, [u8; 32]> {
    fn eq(&self, other: &Self) -> (same: bool) {
        same_digest(&self.hash, &other.hash)
    }
}

impl<T, H: Hasher<[u8; 32]>> vstd::std_specs::cmp::PartialEqSpecImpl for Hashed<T, H, [u8; 32]> {
    open spec fn obeys_eq_spec() -> bool {
        true
    }

    open spec fn eq_spec(&self, other: &Self) -> bool {
        self@ == other@
    }
}

impl<T, H: Hasher<[u8; 32]>> Eq for Hashed<T, H, [u8; 32]> {

}

/// The all-zero digest.
impl<T, H: Hasher<[u8; 32]>> Default for Hashed<T, H, [u8; 32]> {
    fn default() -> (hashed: Self)
        ensures
            all_zero(hashed@),
    {
        Hashed { hash: [0u8; 32], _spook: PhantomData }
    }
}

/// Hashing a value gives the digest tagged with the value's type.
impl<T: Hashable<H>, H: Hasher<O>, O> From<T> for Hashed<T, H, O> {
    fn from(t: T) -> (hashed: Self)
        ensures
            hashed@ == H::digest(t.preimage()),
    {
        Hashed::prehashed(hash::<T, H, O>(&t))
    }
}

impl<T: Hashable<H>, H: Hasher<O>, O> vstd::std_specs::convert::FromSpecImpl<T> for Hashed<T, H, O> {
    open spec fn obeys_from_spec() -> bool {
        true
    }

    closed spec fn from_spec(t: T) -> Self {
        Hashed { hash: H::digest(t.preimage()), _spook: PhantomData }
    }
}

/// Whether every byte of `digest` is zero.
pub open spec fn all_zero(digest: [u8; 32]) -> bool {
    forall|i: int| 0 <= i < 32 ==> digest[i] == 0u8
}

/// Whether `a` and `b` hold the same bytes.
pub fn same_digest(a: &[u8; 32], b: &[u8; 32]) -> (same: bool)
    ensures
        same == (*a == *b),
{
    let mut i: usize = 0;
    while i < 32
        invariant
            i <= 32,
            forall|j: int| 0 <= j < i ==> a[j] == b[j],
        decreases 32 - i,
    {
        if a[i] != b[i] {
            return false;
        }
        i += 1;
    }
    assert(*a =~= *b);
    true
}

/// The digest under `H` of the encoding of `preimage`.
pub fn hash<T: Hashable<H>, H: Hasher<O>, O>(preimage: &T) -> (out: O)
    ensures
        out == H::digest(preimage.preimage()),
{
    let mut hasher: H = H::new();
    preimage.hash(&mut hasher);
    assert(hasher.absorbed() =~= preimage.preimage());
    hasher.output()
}

} // verus!
