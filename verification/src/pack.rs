//! Packed, big-endian form of the values that travel on the bus.
use vstd::prelude::*;

verus! {

/// The `width` low base-256 digits of `value`, most significant first.
pub open spec fn be_bytes(value: nat, width: nat) -> Seq<u8>
    decreases width,
{
    if width == 0 {
        Seq::empty()
    } else {
        be_bytes(value / 256, (width - 1) as nat).push((value % 256) as u8)
    }
}

/// The number whose base-256 digits, most significant first, are `bytes`.
pub open spec fn be_value(bytes: Seq<u8>) -> nat
    decreases bytes.len(),
{
    if bytes.len() == 0 {
        0
    } else {
        be_value(bytes.drop_last()) * 256 + bytes.last() as nat
    }
}

/// 256 to the power `width`.
pub open spec fn radix(width: nat) -> nat
    decreases width,
{
    if width == 0 {
        1
    } else {
        256 * radix((width - 1) as nat)
    }
}

/// `be_bytes` yields exactly `width` bytes.
pub proof fn lemma_be_bytes_len(value: nat, width: nat)
    ensures
        be_bytes(value, width).len() == width,
    decreases width,
{
    if width > 0 {
        lemma_be_bytes_len(value / 256, (width - 1) as nat);
    }
}

/// A sequence of bytes is the digits of a number below `radix` of its length.
pub proof fn lemma_be_value_bound(bytes: Seq<u8>)
    ensures
        be_value(bytes) < radix(bytes.len()),
    decreases bytes.len(),
{
    if bytes.len() > 0 {
        lemma_be_value_bound(bytes.drop_last());
    }
}

/// Reading back the digits of a value that fits in `width` bytes gives the value.
pub proof fn lemma_be_value_of_bytes(value: nat, width: nat)
    requires
        value < radix(width),
    ensures
        be_value(be_bytes(value, width)) == value,
    decreases width,
{
    if width > 0 {
        let rest = be_bytes(value / 256, (width - 1) as nat);
        lemma_be_value_of_bytes(value / 256, (width - 1) as nat);
        assert(be_bytes(value, width).drop_last() =~= rest);
    }
}

/// Writing the digits of what a sequence of bytes reads as gives the sequence back.
pub proof fn lemma_be_bytes_of_value(bytes: Seq<u8>)
    ensures
        be_bytes(be_value(bytes), bytes.len()) == bytes,
    decreases bytes.len(),
{
    if bytes.len() > 0 {
        lemma_be_bytes_of_value(bytes.drop_last());
        assert(be_bytes(be_value(bytes), bytes.len()) =~= bytes);
    } else {
        assert(be_bytes(be_value(bytes), bytes.len()) =~= bytes);
    }
}

/// `packbytes::ToBytes::to_be_bytes` on `u16`: the two bytes of the value, most
/// significant first.
#[verifier::external_body]
fn u16_to_be_bytes(value: u16) -> (bytes: [u8; 2])
    ensures
        bytes@ == be_bytes(value as nat, 2),
{
    packbytes::ToBytes::to_be_bytes(value)
}

/// `packbytes::FromBytes::from_be_bytes` on `u16`: the value whose two bytes, most
/// significant first, are given.
#[verifier::external_body]
fn u16_from_be_bytes(bytes: [u8; 2]) -> (value: u16)
    ensures
        value == be_value(bytes@),
{
    packbytes::FromBytes::from_be_bytes(bytes)
}

/// `packbytes::ToBytes::to_be_bytes` on `u32`: the four bytes of the value, most
/// significant first.
#[verifier::external_body]
fn u32_to_be_bytes(value: u32) -> (bytes: [u8; 4])
    ensures
        bytes@ == be_bytes(value as nat, 4),
{
    packbytes::ToBytes::to_be_bytes(value)
}

/// `packbytes::FromBytes::from_be_bytes` on `u32`: the value whose four bytes, most
/// significant first, are given.
#[verifier::external_body]
fn u32_from_be_bytes(bytes: [u8; 4]) -> (value: u32)
    ensures
        value == be_value(bytes@),
{
    packbytes::FromBytes::from_be_bytes(bytes)
}

/// `packbytes::ToBytes::to_be_bytes` on `u64`: the eight bytes of the value, most
/// significant first.
#[verifier::external_body]
fn u64_to_be_bytes(value: u64) -> (bytes: [u8; 8])
    ensures
        bytes@ == be_bytes(value as nat, 8),
{
    packbytes::ToBytes::to_be_bytes(value)
}

/// `packbytes::FromBytes::from_be_bytes` on `u64`: the value whose eight bytes, most
/// significant first, are given.
#[verifier::external_body]
fn u64_from_be_bytes(bytes: [u8; 8]) -> (value: u64)
    ensures
        value == be_value(bytes@),
{
    packbytes::FromBytes::from_be_bytes(bytes)
}

/// A value with a packed form of fixed size, big-endian throughout.
pub trait Packed: Sized {
    /// Number of bytes of the packed form.
    spec fn spec_size() -> nat;

    /// The packed form of a value.
    spec fn spec_pack(&self) -> Seq<u8>;

    /// The value that a packed form stands for.
    spec fn spec_unpack(bytes: Seq<u8>) -> Self;

    /// Number of bytes of the packed form.
    fn size() -> (n: usize)
        ensures
            n == Self::spec_size(),
    ;

    /// Packs the value.
    fn pack(&self) -> (bytes: Vec<u8>)
        ensures
            bytes@ == self.spec_pack(),
            bytes@.len() == Self::spec_size(),
    ;

    /// Reads a value from its packed form.
    fn unpack(bytes: &[u8]) -> (value: Self)
        requires
            bytes@.len() == Self::spec_size(),
        ensures
            value == Self::spec_unpack(bytes@),
    ;

    /// Packing a value and reading it back gives the value.
    proof fn lemma_unpack_pack(&self)
        ensures
            self.spec_pack().len() == Self::spec_size(),
            Self::spec_unpack(self.spec_pack()) == *self,
    ;
}

impl Packed for u8 {
    open spec fn spec_size() -> nat {
        1
    }

    open spec fn spec_pack(&self) -> Seq<u8> {
        seq![*self]
    }

    open spec fn spec_unpack(bytes: Seq<u8>) -> Self {
        bytes[0]
    }

    fn size() -> (n: usize) {
        1
    }

    fn pack(&self) -> (bytes: Vec<u8>) {
        let mut bytes: Vec<u8> = Vec::new();
        bytes.push(*self);
        assert(bytes@ =~= seq![*self]);
        bytes
    }

    fn unpack(bytes: &[u8]) -> (value: Self) {
        bytes[0]
    }

    proof fn lemma_unpack_pack(&self) {
    }
}

impl Packed for u16 {
    open spec fn spec_size() -> nat {
        2
    }

    open spec fn spec_pack(&self) -> Seq<u8> {
        be_bytes(*self as nat, 2)
    }

    open spec fn spec_unpack(bytes: Seq<u8>) -> Self {
        be_value(bytes) as u16
    }

    fn size() -> (n: usize) {
        2
    }

    fn pack(&self) -> (bytes: Vec<u8>) {
        let packed: [u8; 2] = u16_to_be_bytes(*self);
        let mut bytes: Vec<u8> = Vec::new();
        bytes.push(packed[0]);
        bytes.push(packed[1]);
        assert(bytes@ =~= packed@);
        bytes
    }

    fn unpack(bytes: &[u8]) -> (value: Self) {
        let packed: [u8; 2] = [bytes[0], bytes[1]];
        assert(packed@ =~= bytes@);
        u16_from_be_bytes(packed)
    }

    proof fn lemma_unpack_pack(&self) {
        reveal_with_fuel(radix, 3);
        lemma_be_bytes_len(*self as nat, 2);
        lemma_be_value_of_bytes(*self as nat, 2);
    }
}

impl Packed for u32 {
    open spec fn spec_size() -> nat {
        4
    }

    open spec fn spec_pack(&self) -> Seq<u8> {
        be_bytes(*self as nat, 4)
    }

    open spec fn spec_unpack(bytes: Seq<u8>) -> Self {
        be_value(bytes) as u32
    }

    fn size() -> (n: usize) {
        4
    }

    fn pack(&self) -> (bytes: Vec<u8>) {
        let packed: [u8; 4] = u32_to_be_bytes(*self);
        let mut bytes: Vec<u8> = Vec::new();
        bytes.push(packed[0]);
        bytes.push(packed[1]);
        bytes.push(packed[2]);
        bytes.push(packed[3]);
        assert(bytes@ =~= packed@);
        bytes
    }

    fn unpack(bytes: &[u8]) -> (value: Self) {
        let packed: [u8; 4] = [bytes[0], bytes[1], bytes[2], bytes[3]];
        assert(packed@ =~= bytes@);
        u32_from_be_bytes(packed)
    }

    proof fn lemma_unpack_pack(&self) {
        reveal_with_fuel(radix, 5);
        lemma_be_bytes_len(*self as nat, 4);
        lemma_be_value_of_bytes(*self as nat, 4);
    }
}

impl Packed for u64 {
    open spec fn spec_size() -> nat {
        8
    }

    open spec fn spec_pack(&self) -> Seq<u8> {
        be_bytes(*self as nat, 8)
    }

    open spec fn spec_unpack(bytes: Seq<u8>) -> Self {
        be_value(bytes) as u64
    }

    fn size() -> (n: usize) {
        8
    }

    fn pack(&self) -> (bytes: Vec<u8>) {
        let packed: [u8; 8] = u64_to_be_bytes(*self);
        let mut bytes: Vec<u8> = Vec::new();
        let mut i: usize = 0;
        while i < 8
            invariant
                i <= 8,
                bytes@ == packed@.take(i as int),
            decreases 8 - i,
        {
            bytes.push(packed[i]);
            assert(bytes@ =~= packed@.take(i + 1));
            i += 1;
        }
        assert(bytes@ =~= packed@);
        bytes
    }

    fn unpack(bytes: &[u8]) -> (value: Self) {
        let packed: [u8; 8] = [
            bytes[0],
            bytes[1],
            bytes[2],
            bytes[3],
            bytes[4],
            bytes[5],
            bytes[6],
            bytes[7],
        ];
        assert(packed@ =~= bytes@);
        u64_from_be_bytes(packed)
    }

    proof fn lemma_unpack_pack(&self) {
        reveal_with_fuel(radix, 9);
        lemma_be_bytes_len(*self as nat, 8);
        lemma_be_value_of_bytes(*self as nat, 8);
    }
}

/// The array whose items are those of `items`, in order.
pub open spec fn array_of<T, const N: usize>(items: Seq<T>) -> [T; N] {
    choose|array: [T; N]| array@ == items
}

/// The array of the items of an array is that array.
pub proof fn lemma_array_of<T, const N: usize>(array: [T; N])
    ensures
        array_of::<T, N>(array@) == array,
{
    let chosen = array_of::<T, N>(array@);
    assert(chosen@ == array@);
    assert(chosen =~= array);
}

/// The array `array` with the first `upto` items of `items` in their places.
pub open spec fn array_filled<T, const N: usize>(array: [T; N], items: Seq<T>, upto: nat) -> [T; N]
    decreases upto,
{
    if upto == 0 {
        array
    } else {
        vstd::array::spec_array_update(
            array_filled(array, items, (upto - 1) as nat),
            upto - 1,
            items[upto - 1],
        )
    }
}

/// Filling an array keeps what stands behind the items filled in.
proof fn lemma_array_filled<T, const N: usize>(array: [T; N], items: Seq<T>, upto: nat)
    requires
        upto <= N,
        items.len() == N,
    ensures
        array_filled(array, items, upto)@.len() == N,
        forall|i: int| 0 <= i < upto ==> array_filled(array, items, upto)@[i] == items[i],
    decreases upto,
{
    broadcast use vstd::array::group_array_axioms;

    if upto > 0 {
        lemma_array_filled(array, items, (upto - 1) as nat);
    }
}

/// As many items as an array holds are the items of an array.
pub proof fn lemma_array_of_items<T, const N: usize>(items: Seq<T>)
    requires
        items.len() == N,
    ensures
        array_of::<T, N>(items)@ == items,
{
    let any: [T; N] = arbitrary();
    let filled = array_filled(any, items, N as nat);
    lemma_array_filled(any, items, N as nat);
    assert(filled@ =~= items);
}

impl<const N: usize> Packed for [u8; N] {
    open spec fn spec_size() -> nat {
        N as nat
    }

    open spec fn spec_pack(&self) -> Seq<u8> {
        self@
    }

    open spec fn spec_unpack(bytes: Seq<u8>) -> Self {
        array_of(bytes)
    }

    fn size() -> (n: usize) {
        N
    }

    fn pack(&self) -> (bytes: Vec<u8>) {
        let mut bytes: Vec<u8> = Vec::new();
        let mut i: usize = 0;
        while i < N
            invariant
                i <= N,
                bytes@ == self@.take(i as int),
            decreases N - i,
        {
            bytes.push(self[i]);
            assert(bytes@ =~= self@.take(i + 1));
            i += 1;
        }
        assert(self@.take(N as int) =~= self@);
        bytes
    }

    fn unpack(bytes: &[u8]) -> (value: Self) {
        let mut value: [u8; N] = [0u8; N];
        let mut i: usize = 0;
        while i < N
            invariant
                i <= N,
                bytes@.len() == N,
                forall|k: int| 0 <= k < i ==> value@[k] == bytes@[k],
            decreases N - i,
        {
            value[i] = bytes[i];
            i += 1;
        }
        proof {
            assert(value@ =~= bytes@);
            lemma_array_of::<u8, N>(value);
        }
        value
    }

    proof fn lemma_unpack_pack(&self) {
        lemma_array_of::<u8, N>(*self);
    }
}

} // verus!
