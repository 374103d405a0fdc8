//! The digest of a restored file, fed piece by piece.

use vstd::prelude::*;
use vstd::string::*;
use sha2::Digest;

verus! {

/// A SHA-256 computation under way: `sha2::Sha256`, with the bytes it was fed.
#[verifier::external_body]
pub struct Hasher {
    inner: sha2::Sha256,
}

/// The bytes that a computation was fed.
pub uninterp spec fn fed(h: Hasher) -> Seq<u8>;

/// The SHA-256 digest of a sequence of bytes.
pub uninterp spec fn sha256(data: Seq<u8>) -> Seq<u8>;

/// `sha2::Sha256::new`: nothing has been fed.
#[verifier::external_body]
fn new_hasher() -> (h: Hasher)
    ensures
        fed(h) == Seq::<u8>::empty(),
{
    Hasher { inner: sha2::Sha256::new() }
}

/// `sha2::Digest::update`: feeds the bytes, behind those fed before.
#[verifier::external_body]
fn feed(h: &mut Hasher, data: &[u8])
    requires
        fed(*old(h)).len() + data@.len() < 0x2000_0000_0000_0000,
    ensures
        fed(*final(h)) == fed(*old(h)) + data@,
{
    h.inner.update(data)
}

/// `sha2::Digest::finalize`: the digest of all the bytes fed, 32 bytes long.
/// It counts the bits in 64 bits, hence the bound.
#[verifier::external_body]
fn finish_hasher(h: Hasher) -> (digest: Vec<u8>)
    requires
        fed(h).len() < 0x2000_0000_0000_0000,
    ensures
        digest@ == sha256(fed(h)),
        digest@.len() == 32,
{
    h.inner.finalize().to_vec()
}

/// The hexadecimal digit, in lower case, for a number below sixteen.
pub open spec fn hex_digit(d: nat) -> char {
    if d < 10 {
        ((48 + d) as u8) as char
    } else {
        ((87 + d) as u8) as char
    }
}

/// Two hexadecimal digits per byte.
pub open spec fn hex(bytes: Seq<u8>) -> Seq<char>
    decreases bytes.len(),
{
    if bytes.len() == 0 {
        seq![]
    } else {
        hex(bytes.drop_last()).push(hex_digit((bytes.last() / 16) as nat)).push(
            hex_digit((bytes.last() % 16) as nat),
        )
    }
}

/// The hexadecimal digit for a number below sixteen.
fn hex_char(d: u8) -> (c: char)
    requires
        d < 16,
    ensures
        c == hex_digit(d as nat),
{
    if d < 10 {
        (48u8 + d) as char
    } else {
        (87u8 + d) as char
    }
}

/// The bytes in hexadecimal, in lower case.
pub fn hex_text(bytes: &[u8]) -> (s: String)
    ensures
        s@ == hex(bytes@),
{
    let mut s = String::new();
    let mut i: usize = 0;
    assert(bytes@.take(0) =~= Seq::<u8>::empty());
    while i < bytes.len()
        invariant
            i <= bytes@.len(),
            s@ == hex(bytes@.take(i as int)),
        decreases bytes@.len() - i,
    {
        let b: u8 = bytes[i];
        s.push(hex_char(b / 16));
        s.push(hex_char(b % 16));
        assert(bytes@.take(i + 1).drop_last() =~= bytes@.take(i as int));
        i += 1;
    }
    assert(bytes@.take(bytes@.len() as int) =~= bytes@);
    s
}

/// Different bytes have different hexadecimal texts.
pub proof fn law_hex_is_injective(a: Seq<u8>, b: Seq<u8>)
    requires
        hex(a) == hex(b),
    ensures
        a == b,
    decreases a.len(),
{
    lemma_hex_len(a);
    lemma_hex_len(b);
    if a.len() == 0 {
        assert(a =~= b);
    } else {
        let x = a.last();
        let y = b.last();
        let n = hex(a).len();
        assert(hex(a).drop_last().drop_last() =~= hex(a.drop_last()));
        assert(hex(b).drop_last().drop_last() =~= hex(b.drop_last()));
        assert(hex(a)[n - 1] == hex_digit((x % 16) as nat));
        assert(hex(b)[n - 1] == hex_digit((y % 16) as nat));
        assert(hex(a)[n - 2] == hex_digit((x / 16) as nat));
        assert(hex(b)[n - 2] == hex_digit((y / 16) as nat));
        lemma_hex_digit_injective((x % 16) as nat, (y % 16) as nat);
        lemma_hex_digit_injective((x / 16) as nat, (y / 16) as nat);
        law_hex_is_injective(a.drop_last(), b.drop_last());
        assert(a =~= a.drop_last().push(x));
        assert(b =~= b.drop_last().push(y));
    }
}

proof fn lemma_hex_len(a: Seq<u8>)
    ensures
        hex(a).len() == 2 * a.len(),
    decreases a.len(),
{
    if a.len() > 0 {
        lemma_hex_len(a.drop_last());
    }
}

proof fn lemma_hex_digit_injective(d: nat, e: nat)
    requires
        d < 16,
        e < 16,
        hex_digit(d) == hex_digit(e),
    ensures
        d == e,
{
}

/// The digest and the size of a file whose contents come piece by piece.
pub struct FileDigest {
    hasher: Hasher,
    size: u64,
}

impl View for FileDigest {
    type V = Seq<u8>;

    /// The contents so far.
    closed spec fn view(&self) -> Seq<u8> {
        fed(self.hasher)
    }
}

impl FileDigest {
    /// The size is that of the contents so far.
    pub closed spec fn wf(&self) -> bool {
        self.size == self@.len() && self.size < 0x2000_0000_0000_0000
    }

    /// No contents yet.
    pub fn new() -> (d: FileDigest)
        ensures
            d@ == Seq::<u8>::empty(),
            d.wf(),
    {
        FileDigest { hasher: new_hasher(), size: 0 }
    }

    /// How many bytes have come so far.
    pub fn size(&self) -> (n: u64)
        requires
            self.wf(),
        ensures
            n == self@.len(),
    {
        self.size
    }

    /// The next piece of the contents.
    pub fn update(&mut self, piece: &[u8])
        requires
            old(self).wf(),
            old(self)@.len() + piece@.len() < 0x2000_0000_0000_0000,
        ensures
            final(self).wf(),
            final(self)@ == old(self)@ + piece@,
    {
        feed(&mut self.hasher, piece);
        self.size = self.size + piece.len() as u64;
    }

    /// The SHA-256 digest of the contents in hexadecimal, and their size.
    pub fn finish(self) -> (r: (String, u64))
        requires
            self.wf(),
        ensures
            r.0@ == hex(sha256(self@)),
            r.0@.len() == 64,
            r.1 == self@.len(),
    {
        let size: u64 = self.size;
        let digest: Vec<u8> = finish_hasher(self.hasher);
        proof {
            lemma_hex_len(digest@);
        }
        (hex_text(digest.as_slice()), size)
    }
}

/// The number that a hexadecimal digit in lower case spells.
pub open spec fn hex_value(c: char) -> int {
    if 'a' as int <= c as int <= 'f' as int {
        c as int - 'a' as int + 10
    } else {
        c as int - '0' as int
    }
}

/// Every byte is written as two digits in lower case, the higher one first,
/// and the bytes in their order.
pub proof fn law_hex_spells_every_byte(bytes: Seq<u8>, i: int)
    requires
        0 <= i < bytes.len(),
    ensures
        hex(bytes).len() == 2 * bytes.len(),
        bytes[i] == 16 * hex_value(hex(bytes)[2 * i]) + hex_value(hex(bytes)[2 * i + 1]),
        is_hex(hex(bytes)[2 * i]),
        is_hex(hex(bytes)[2 * i + 1]),
    decreases bytes.len(),
{
    lemma_hex_len(bytes);
    let front = bytes.drop_last();
    lemma_hex_len(front);
    if i < front.len() {
        law_hex_spells_every_byte(front, i);
        assert(hex(bytes)[2 * i] == hex(front)[2 * i]);
        assert(hex(bytes)[2 * i + 1] == hex(front)[2 * i + 1]);
    }
}

/// Whether a character is a hexadecimal digit in lower case.
pub open spec fn is_hex(c: char) -> bool {
    '0' as int <= c as int <= '9' as int || 'a' as int <= c as int <= 'f' as int
}

} // verus!
