//! Block headers and block hashes as plain bytes.
use vstd::prelude::*;
use vstd::arithmetic::power2::pow2;
use vstd::string::*;

use bitcoincore_rpc::bitcoin::hashes::sha256d;
use bitcoincore_rpc::bitcoin::params::Params;
use bitcoincore_rpc::bitcoin::{CompactTarget, Target};

verus! {

/// Length of a serialised block header.
pub const HEADER_LEN: usize = 80;

/// Length of a block hash.
pub const HASH_LEN: usize = 32;

/// What the double SHA-256 of a byte string is.
pub uninterp spec fn sha256d_of(b: Seq<u8>) -> Seq<u8>;

/// Relies on `bitcoin_hashes::sha256d::Hash::hash`: the double SHA-256
/// digest of the bytes, 32 bytes long.
#[verifier::external_body]
fn sha256d(b: &Vec<u8>) -> (r: Vec<u8>)
    ensures
        r@ == sha256d_of(b@),
        r@.len() == HASH_LEN,
{
    let digest = <sha256d::Hash as bitcoincore_rpc::bitcoin::hashes::Hash>::hash(b.as_slice());
    <sha256d::Hash as bitcoincore_rpc::bitcoin::hashes::Hash>::to_byte_array(digest).to_vec()
}

/// A lower-case hexadecimal digit.
pub open spec fn hex_digit(n: u8) -> char {
    if n < 10 {
        (n + 48) as char
    } else {
        (n + 87) as char
    }
}

/// Two lower-case hexadecimal digits per byte, most significant first.
pub open spec fn hex_of(b: Seq<u8>) -> Seq<char>
    decreases b.len(),
{
    if b.len() == 0 {
        Seq::empty()
    } else {
        seq![hex_digit(b[0] / 16), hex_digit(b[0] % 16)] + hex_of(b.drop_first())
    }
}

/// Relies on `hex::encode`: two lower-case hex digits for each byte.
#[verifier::external_body]
pub(crate) fn hex_encode_bytes(b: &Vec<u8>) -> (r: String)
    ensures
        r@ == hex_of(b@),
{
    hex::encode(b)
}


/// Whether a character is a hexadecimal digit of either case.
pub open spec fn is_hex_char(c: char) -> bool {
    ('0' <= c && c <= '9') || ('a' <= c && c <= 'f') || ('A' <= c && c <= 'F')
}

/// The value of a hexadecimal digit.
pub open spec fn hex_val(c: char) -> u8 {
    if '0' <= c && c <= '9' {
        (c as u32 - 48) as u8
    } else if 'a' <= c && c <= 'f' {
        (c as u32 - 87) as u8
    } else {
        (c as u32 - 55) as u8
    }
}

/// Whether a string is an even number of hexadecimal digits.
pub open spec fn is_hex_string(s: Seq<char>) -> bool {
    s.len() % 2 == 0 && forall|i: int| 0 <= i < s.len() ==> is_hex_char(#[trigger] s[i])
}

/// The bytes that an even run of hexadecimal digits stands for.
pub open spec fn unhex(s: Seq<char>) -> Seq<u8>
    decreases s.len(),
{
    if s.len() < 2 {
        Seq::empty()
    } else {
        seq![(hex_val(s[0]) * 16 + hex_val(s[1])) as u8] + unhex(s.subrange(2, s.len() as int))
    }
}

#[verifier::external_type_specification]
#[verifier::external_body]
pub struct ExFromHexError(hex::FromHexError);

/// Relies on `hex::decode`: an even number of hex digits of either case
/// decodes to one byte per pair; anything else is an error.
#[verifier::external_body]
pub(crate) fn hex_decode_bytes(s: &str) -> (r: Result<Vec<u8>, hex::FromHexError>)
    ensures
        r is Ok <==> is_hex_string(s@),
        r is Ok ==> r->Ok_0@ == unhex(s@),
{
    hex::decode(s)
}

/// The mantissa of a compact target as it is read: shifted right for an
/// exponent of three or less.
pub open spec fn compact_mantissa(bits: u32) -> int {
    let e = bits / 0x100_0000;
    let m = bits % 0x100_0000;
    if e == 0 {
        0
    } else if e == 1 {
        (m / 0x1_0000) as int
    } else if e == 2 {
        (m / 0x100) as int
    } else {
        m as int
    }
}

/// Whether a compact target decodes to a non-zero 256-bit target without
/// bits shifted out: a positive mantissa of at most 23 bits, and an exponent
/// of at most 32.
pub open spec fn compact_target_is_plain(bits: u32) -> bool {
    &&& 1 <= bits / 0x100_0000 <= 32
    &&& 0 < compact_mantissa(bits) <= 0x7f_ffff
}

/// The target that a plain compact target stands for.
pub open spec fn compact_target(bits: u32) -> int {
    let e = bits / 0x100_0000;
    if e <= 3 {
        compact_mantissa(bits)
    } else {
        compact_mantissa(bits) * pow2((8 * (e - 3)) as nat)
    }
}

/// The largest attainable mainnet target, `0xffff * 2^208`.
pub open spec fn max_mainnet_target() -> int {
    (0xffff * pow2(208)) as int
}

/// The mainnet difficulty of a plain compact target: the largest attainable
/// target divided by it, capped at `u128::MAX`.
pub open spec fn mainnet_difficulty_of(bits: u32) -> int {
    let d = max_mainnet_target() / compact_target(bits);
    if d > u128::MAX {
        u128::MAX as int
    } else {
        d
    }
}

/// Relies on `bitcoin::Target::difficulty` with the mainnet parameters: the
/// largest attainable target divided by this one, saturated at `u128::MAX`.
/// It panics only on a zero target, which `requires` leaves out.
#[verifier::external_body]
fn mainnet_difficulty(bits: u32) -> (r: u128)
    requires
        compact_target_is_plain(bits),
    ensures
        r as int == mainnet_difficulty_of(bits),
{
    Target::from_compact(CompactTarget::from_consensus(bits)).difficulty(&Params::MAINNET)
}

/// Whether a compact target decodes to the zero target: no mantissa is
/// left, or its sign bit is set.
pub open spec fn compact_target_is_zero(bits: u32) -> bool {
    compact_mantissa(bits) == 0 || compact_mantissa(bits) > 0x7f_ffff
}

/// The difficulty of a compact target as an integer: the mainnet difficulty
/// capped at `u64::MAX` for a plain target; `u64::MAX` for the zero target,
/// which no hash can meet; 0 for a target shifted beyond 256 bits, which any
/// hash meets.
pub open spec fn difficulty_int_of(bits: u32) -> u64 {
    if compact_target_is_plain(bits) {
        if mainnet_difficulty_of(bits) > u64::MAX {
            u64::MAX
        } else {
            mainnet_difficulty_of(bits) as u64
        }
    } else if compact_target_is_zero(bits) {
        u64::MAX
    } else {
        0
    }
}

/// Whether a compact target is plain (see `compact_target_is_plain`).
pub fn is_plain_target(bits: u32) -> (r: bool)
    ensures
        r == compact_target_is_plain(bits),
{
    let e: u32 = bits / 0x100_0000;
    let m: u32 = bits % 0x100_0000;
    let mant: u32 = if e == 0 {
        0
    } else if e == 1 {
        m / 0x1_0000
    } else if e == 2 {
        m / 0x100
    } else {
        m
    };
    1 <= e && e <= 32 && 0 < mant && mant <= 0x7f_ffff
}

/// Whether a compact target is the zero target (see `compact_target_is_zero`).
pub fn is_zero_target(bits: u32) -> (r: bool)
    ensures
        r == compact_target_is_zero(bits),
{
    let e: u32 = bits / 0x100_0000;
    let m: u32 = bits % 0x100_0000;
    let mant: u32 = if e == 0 {
        0
    } else if e == 1 {
        m / 0x1_0000
    } else if e == 2 {
        m / 0x100
    } else {
        m
    };
    mant == 0 || mant > 0x7f_ffff
}

/// A difficulty capped at `u64::MAX`.
pub fn capped_difficulty(d: u128) -> (r: u64)
    ensures
        r == if d > u64::MAX as u128 { u64::MAX } else { d as u64 },
{
    if d > u64::MAX as u128 {
        u64::MAX
    } else {
        d as u64
    }
}

/// The difficulty of a compact target as an integer (see `difficulty_int_of`).
pub fn difficulty_int(bits: u32) -> (r: u64)
    ensures
        r == difficulty_int_of(bits),
{
    if is_plain_target(bits) {
        capped_difficulty(mainnet_difficulty(bits))
    } else if is_zero_target(bits) {
        u64::MAX
    } else {
        0
    }
}

/// A block hash, 32 bytes in internal (little-endian) order.
#[derive(Clone, Debug)]
pub struct BlockHash {
    pub bytes: Vec<u8>,
}

impl View for BlockHash {
    type V = Seq<u8>;

    open spec fn view(&self) -> Seq<u8> {
        self.bytes@
    }
}

/// How a block hash is written: the hex digits of its bytes in reverse order.
pub open spec fn hash_string_of(h: Seq<u8>) -> Seq<char> {
    hex_of(h.reverse())
}

/// The bytes in reverse order.
fn reversed(b: &Vec<u8>) -> (r: Vec<u8>)
    ensures
        r@ == b@.reverse(),
{
    let mut r: Vec<u8> = Vec::new();
    let mut i: usize = b.len();
    while i > 0
        invariant
            i <= b@.len(),
            r@ =~= Seq::new((b@.len() - i) as nat, |k: int| b@[b@.len() - 1 - k]),
        decreases i,
    {
        i = i - 1;
        r.push(b[i]);
    }
    r
}

impl BlockHash {
    /// A copy of this hash.
    pub fn duplicate(&self) -> (r: BlockHash)
        ensures
            r@ == self@,
    {
        BlockHash { bytes: byte_range(&self.bytes, 0, self.bytes.len()) }
    }

    /// Whether two hashes are the same bytes.
    pub fn same(&self, other: &BlockHash) -> (r: bool)
        ensures
            r == (self@ == other@),
    {
        if self.bytes.len() != other.bytes.len() {
            return false;
        }
        let mut i: usize = 0;
        while i < self.bytes.len()
            invariant
                self@.len() == other@.len(),
                i <= self@.len(),
                forall|k: int| 0 <= k < i ==> self@[k] == other@[k],
            decreases self@.len() - i,
        {
            if self.bytes[i] != other.bytes[i] {
                return false;
            }
            i = i + 1;
        }
        assert(self@ =~= other@);
        true
    }

    /// The hash as it is displayed: 64 hex digits of the reversed bytes.
    pub fn to_hex_string(&self) -> (r: String)
        ensures
            r@ == hash_string_of(self@),
    {
        hex_encode_bytes(&reversed(&self.bytes))
    }

    /// Reads a hash in its displayed form; `None` unless the text is 64 hex
    /// digits.
    pub fn from_hex_string(s: &str) -> (r: Option<BlockHash>)
        ensures
            r is Some <==> (is_hex_string(s@) && s@.len() == 2 * HASH_LEN),
            r is Some ==> r->Some_0@ == unhex(s@).reverse(),
    {
        if s.unicode_len() != 2 * HASH_LEN {
            return None;
        }
        match hex_decode_bytes(s) {
            Ok(b) => Some(BlockHash { bytes: reversed(&b) }),
            Err(_) => None,
        }
    }
}


/// The little-endian `u32` at byte offset `o`.
pub open spec fn le_u32_at(b: Seq<u8>, o: int) -> u32 {
    (b[o] as int + b[o + 1] as int * 0x100 + b[o + 2] as int * 0x1_0000 + b[o + 3] as int
        * 0x100_0000) as u32
}

pub(crate) fn read_le_u32(b: &Vec<u8>, o: usize) -> (r: u32)
    requires
        o <= HEADER_LEN,
        o + 4 <= b@.len(),
    ensures
        r == le_u32_at(b@, o as int),
{
    let o1: usize = o + 1;
    let o2: usize = o + 2;
    let o3: usize = o + 3;
    let b0 = b[o] as u64;
    let b1 = b[o1] as u64;
    let b2 = b[o2] as u64;
    let b3 = b[o3] as u64;
    assert(b0 + b1 * 0x100 + b2 * 0x1_0000 + b3 * 0x100_0000 <= u32::MAX) by (nonlinear_arith)
        requires
            b0 <= 255,
            b1 <= 255,
            b2 <= 255,
            b3 <= 255,
    ;
    (b0 + b1 * 0x100 + b2 * 0x1_0000 + b3 * 0x100_0000) as u32
}

/// The bytes `lo..hi` of a vector.
fn byte_range(b: &Vec<u8>, lo: usize, hi: usize) -> (r: Vec<u8>)
    requires
        lo <= hi <= b@.len(),
    ensures
        r@ == b@.subrange(lo as int, hi as int),
{
    let mut r: Vec<u8> = Vec::new();
    let mut i: usize = lo;
    while i < hi
        invariant
            lo <= i <= hi <= b@.len(),
            r@ =~= b@.subrange(lo as int, i as int),
        decreases hi - i,
    {
        r.push(b[i]);
        i = i + 1;
    }
    r
}

/// A block header: its 80 serialised bytes (version, previous block hash,
/// merkle root, time, compact target, nonce).
#[derive(Debug)]
pub struct Header {
    bytes: Vec<u8>,
}

impl View for Header {
    type V = Seq<u8>;

    closed spec fn view(&self) -> Seq<u8> {
        self.bytes@
    }
}

/// The previous block hash field of serialised header bytes.
pub open spec fn prev_hash_of(h: Seq<u8>) -> Seq<u8> {
    h.subrange(4, 36)
}

/// The merkle root field of serialised header bytes.
pub open spec fn merkle_root_of(h: Seq<u8>) -> Seq<u8> {
    h.subrange(36, 68)
}

/// The block hash of serialised header bytes.
pub open spec fn block_hash_of(h: Seq<u8>) -> Seq<u8> {
    sha256d_of(h)
}

impl Header {
    #[verifier::type_invariant]
    spec fn is_full_length(self) -> bool {
        self.bytes@.len() == HEADER_LEN
    }

    /// A copy of this header.
    pub fn duplicate(&self) -> (r: Header)
        ensures
            r@ == self@,
    {
        proof { use_type_invariant(self); }
        Header { bytes: byte_range(&self.bytes, 0, HEADER_LEN) }
    }

    /// A header from its serialised bytes; `None` unless there are 80.
    pub fn from_bytes(bytes: Vec<u8>) -> (r: Option<Header>)
        ensures
            r is Some <==> bytes@.len() == HEADER_LEN,
            r is Some ==> r->Some_0@ == bytes@,
    {
        if bytes.len() == HEADER_LEN {
            Some(Header { bytes })
        } else {
            None
        }
    }

    /// The serialised bytes.
    pub fn to_bytes(&self) -> (r: Vec<u8>)
        ensures
            r@ == self@,
            r@.len() == HEADER_LEN,
    {
        proof { use_type_invariant(self); }
        byte_range(&self.bytes, 0, HEADER_LEN)
    }

    /// The hash of this header.
    pub fn block_hash(&self) -> (r: BlockHash)
        ensures
            r@ == block_hash_of(self@),
            r@.len() == HASH_LEN,
    {
        BlockHash { bytes: sha256d(&self.bytes) }
    }

    /// The hash of the block this one builds on.
    pub fn prev_blockhash(&self) -> (r: BlockHash)
        ensures
            r@ == prev_hash_of(self@),
            r@.len() == HASH_LEN,
    {
        proof { use_type_invariant(self); }
        BlockHash { bytes: byte_range(&self.bytes, 4, 36) }
    }

    /// The merkle root, in internal byte order.
    pub fn merkle_root(&self) -> (r: Vec<u8>)
        ensures
            r@ == merkle_root_of(self@),
    {
        proof { use_type_invariant(self); }
        byte_range(&self.bytes, 36, 68)
    }

    /// The version field, read as unsigned.
    pub fn version(&self) -> (r: u32)
        ensures
            r == le_u32_at(self@, 0),
    {
        proof { use_type_invariant(self); }
        read_le_u32(&self.bytes, 0)
    }

    /// The time field.
    pub fn time(&self) -> (r: u32)
        ensures
            r == le_u32_at(self@, 68),
    {
        proof { use_type_invariant(self); }
        read_le_u32(&self.bytes, 68)
    }

    /// The compact difficulty target.
    pub fn bits(&self) -> (r: u32)
        ensures
            r == le_u32_at(self@, 72),
    {
        proof { use_type_invariant(self); }
        read_le_u32(&self.bytes, 72)
    }

    /// The nonce.
    pub fn nonce(&self) -> (r: u32)
        ensures
            r == le_u32_at(self@, 76),
    {
        proof { use_type_invariant(self); }
        read_le_u32(&self.bytes, 76)
    }
}

/// Two hex digits make one byte.
pub proof fn lemma_unhex_len(s: Seq<char>)
    ensures
        s.len() % 2 == 0 ==> unhex(s).len() == s.len() / 2,
    decreases s.len(),
{
    if s.len() >= 2 {
        lemma_unhex_len(s.subrange(2, s.len() as int));
    }
}

/// Writing bytes in hex and reading them back gives the same bytes.
pub proof fn lemma_hex_round_trip(b: Seq<u8>)
    ensures
        is_hex_string(hex_of(b)),
        unhex(hex_of(b)) == b,
        hex_of(b).len() == 2 * b.len(),
    decreases b.len(),
{
    if b.len() > 0 {
        lemma_hex_round_trip(b.drop_first());
        let h = hex_of(b);
        let hi = b[0] / 16;
        let lo = b[0] % 16;
        assert(h.subrange(2, h.len() as int) =~= hex_of(b.drop_first()));
        assert(h[0] == hex_digit(hi) && h[1] == hex_digit(lo));
        assert(hex_val(hex_digit(hi)) == hi);
        assert(hex_val(hex_digit(lo)) == lo);
        assert((hi * 16 + lo) as u8 == b[0]);
        assert(unhex(h) =~= seq![b[0]] + b.drop_first());
        assert forall|i: int| 0 <= i < h.len() implies is_hex_char(#[trigger] h[i]) by {
            if i >= 2 {
                assert(h[i] == hex_of(b.drop_first())[i - 2]);
            }
        }
    }
}

/// The headers in a run of serialised headers, 80 bytes each; `None` when
/// the length is not a multiple of 80.
pub fn headers_from_bytes(b: &Vec<u8>) -> (r: Option<Vec<Header>>)
    ensures
        r is Some <==> b@.len() as int % (HEADER_LEN as int) == 0,
        r is Some ==> r->Some_0@.len() == b@.len() as int / (HEADER_LEN as int) && forall|k: int|
            0 <= k < r->Some_0@.len() ==> (#[trigger] r->Some_0@[k])@ == b@.subrange(
                k * HEADER_LEN,
                (k + 1) * HEADER_LEN,
            ),
{
    if b.len() % HEADER_LEN != 0 {
        return None;
    }
    let total = b.len();
    let n = total / HEADER_LEN;
    let mut r: Vec<Header> = Vec::new();
    let mut k: usize = 0;
    while k < n
        invariant
            total == b@.len(),
            n == b@.len() as int / (HEADER_LEN as int),
            b@.len() as int % (HEADER_LEN as int) == 0,
            k <= n,
            r@.len() == k,
            forall|j: int| 0 <= j < k ==> (#[trigger] r@[j])@ == b@.subrange(j * HEADER_LEN, (j + 1) * HEADER_LEN),
        decreases n - k,
    {
        assert((k + 1) * 80 <= total) by (nonlinear_arith)
            requires
                k < n,
                n == total / 80,
                total % 80 == 0,
        ;
        let chunk = byte_range(b, k * HEADER_LEN, (k + 1) * HEADER_LEN);
        match Header::from_bytes(chunk) {
            Some(h) => r.push(h),
            None => {
                return None;
            },
        }
        k = k + 1;
    }
    Some(r)
}

/// A header written as 160 hex digits; `None` for any other text.
pub fn header_from_hex(s: &str) -> (r: Option<Header>)
    ensures
        r is Some <==> is_hex_string(s@) && s@.len() == 2 * HEADER_LEN,
        r is Some ==> r->Some_0@ == unhex(s@),
{
    if s.unicode_len() != 2 * HEADER_LEN {
        return None;
    }
    match hex_decode_bytes(s) {
        Ok(bytes) => {
            proof {
                lemma_unhex_len(s@);
            }
            Header::from_bytes(bytes)
        },
        Err(_) => None,
    }
}

} // verus!
