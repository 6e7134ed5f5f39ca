//! Content digests: SHA-256 over a stream of chunks, rendered as lowercase hex.

use sha2::Digest;
use sha2::Sha256;
use vstd::prelude::*;
use vstd::string::StrSliceExecFns;
use vstd::string::StringExecFns;

verus! {

/// The hasher of the `sha2` crate. Nothing inside it is visible to proofs.
#[verifier::external_type_specification]
#[verifier::external_body]
pub struct ExSha256(Sha256);

/// The SHA-256 digest of a byte sequence.
pub uninterp spec fn sha256(data: Seq<u8>) -> Seq<u8>;

/// The bytes that a hasher has been fed since it was created, in order.
pub uninterp spec fn absorbed(hasher: Sha256) -> Seq<u8>;

/// How many bytes a file is read at a time. Any other size gives the same
/// digest.
pub const CHUNK_SIZE: usize = 4096;

/// The most bytes one hasher takes. The hasher counts its input in bits, in
/// 64 bits.
pub const MAX_INPUT_LEN: u64 = 0x1fff_ffff_ffff_ffff;

/// `Sha256::new` of the `sha2` crate: a hasher that has been fed nothing.
#[verifier::external_body]
fn sha256_new() -> (hasher: Sha256)
    ensures
        absorbed(hasher) == Seq::<u8>::empty(),
{
    Sha256::new()
}

/// `Digest::update` of the `sha2` crate: the chunk is appended to what the
/// hasher has been fed. The crate adds the chunk's length in bits to a 64-bit
/// count, so the total stays below 2^61 bytes.
#[verifier::external_body]
fn sha256_update(hasher: &mut Sha256, chunk: &[u8])
    requires
        absorbed(*old(hasher)).len() + chunk@.len() <= MAX_INPUT_LEN,
    ensures
        absorbed(*final(hasher)) == absorbed(*old(hasher)) + chunk@,
{
    hasher.update(chunk);
}

/// `Digest::finalize` of the `sha2` crate: the 32-byte SHA-256 digest of
/// everything the hasher has been fed.
#[verifier::external_body]
fn sha256_finalize(hasher: Sha256) -> (digest: Vec<u8>)
    ensures
        digest@ == sha256(absorbed(hasher)),
        digest@.len() == 32,
{
    hasher.finalize().to_vec()
}

/// The sixteen digits of lowercase hexadecimal, in order of value.
pub open spec fn hex_alphabet() -> Seq<char> {
    seq!['0', '1', '2', '3', '4', '5', '6', '7', '8', '9', 'a', 'b', 'c', 'd', 'e', 'f']
}

/// Lowercase hexadecimal of a byte sequence: two digits for each byte, the
/// high half first.
pub open spec fn hex_lower(bytes: Seq<u8>) -> Seq<char> {
    Seq::new(
        2 * bytes.len(),
        |i: int|
            if i % 2 == 0 {
                hex_alphabet()[bytes[i / 2] as int / 16]
            } else {
                hex_alphabet()[bytes[i / 2] as int % 16]
            },
    )
}

/// Whether a character is one of `0`-`9` or `a`-`f`.
pub open spec fn is_lower_hex(c: char) -> bool {
    ('0' <= c && c <= '9') || ('a' <= c && c <= 'f')
}

/// Whether a string has the form of a digest: 64 lowercase hex digits.
pub open spec fn is_digest_text(text: Seq<char>) -> bool {
    &&& text.len() == 64
    &&& forall|i: int| 0 <= i < text.len() ==> is_lower_hex(#[trigger] text[i])
}

/// All the chunks of a stream joined in order.
pub open spec fn joined(chunks: Seq<Vec<u8>>) -> Seq<u8>
    decreases chunks.len(),
{
    if chunks.len() == 0 {
        Seq::empty()
    } else {
        joined(chunks.drop_last()) + chunks.last()@
    }
}

/// Lowercase hex has two digits per byte, and every digit is one of
/// `0`-`9`, `a`-`f`.
pub proof fn lemma_hex_lower_digits(bytes: Seq<u8>)
    ensures
        hex_lower(bytes).len() == 2 * bytes.len(),
        forall|i: int| 0 <= i < hex_lower(bytes).len() ==> is_lower_hex(#[trigger] hex_lower(bytes)[i]),
{
    assert forall|i: int| 0 <= i < hex_lower(bytes).len() implies is_lower_hex(
        #[trigger] hex_lower(bytes)[i],
    ) by {
        let b = bytes[i / 2] as int;
        let n = if i % 2 == 0 {
            b / 16
        } else {
            b % 16
        };
        assert(0 <= n < 16);
        assert(hex_lower(bytes)[i] == hex_alphabet()[n]);
        assert(is_lower_hex(hex_alphabet()[n]));
    }
}

/// Hex encoding loses nothing: two byte sequences with the same hex text are
/// the same bytes.
pub proof fn lemma_hex_lower_injective(a: Seq<u8>, b: Seq<u8>)
    requires
        hex_lower(a) == hex_lower(b),
    ensures
        a == b,
{
    assert(hex_lower(a).len() == 2 * a.len());
    assert(hex_lower(b).len() == 2 * b.len());
    assert forall|k: int| 0 <= k < a.len() implies a[k] == b[k] by {
        let x = a[k] as int;
        let y = b[k] as int;
        assert(hex_lower(a)[2 * k] == hex_alphabet()[x / 16]);
        assert(hex_lower(b)[2 * k] == hex_alphabet()[y / 16]);
        assert(hex_lower(a)[2 * k + 1] == hex_alphabet()[x % 16]);
        assert(hex_lower(b)[2 * k + 1] == hex_alphabet()[y % 16]);
        lemma_alphabet_distinct(x / 16, y / 16);
        lemma_alphabet_distinct(x % 16, y % 16);
    }
    assert(a =~= b);
}

proof fn lemma_alphabet_distinct(m: int, n: int)
    requires
        0 <= m < 16,
        0 <= n < 16,
        hex_alphabet()[m] == hex_alphabet()[n],
    ensures
        m == n,
{
}

/// The one-digit text of a value below sixteen.
fn hex_digit(n: u8) -> (digit: &'static str)
    requires
        n < 16,
    ensures
        digit@ == seq![hex_alphabet()[n as int]],
{
    let alphabet = "0123456789abcdef";
    proof {
        reveal_strlit("0123456789abcdef");
        assert(alphabet@ =~= hex_alphabet());
    }
    let from: usize = n as usize;
    let digit = alphabet.substring_ascii(from, from + 1);
    assert(digit@ =~= seq![hex_alphabet()[n as int]]);
    digit
}

/// Renders bytes as lowercase hexadecimal text.
pub fn to_hex(bytes: &[u8]) -> (text: String)
    ensures
        text@ == hex_lower(bytes@),
{
    let mut text = String::new();
    let mut i: usize = 0;
    while i < bytes.len()
        invariant
            i <= bytes.len(),
            text@ == hex_lower(bytes@.take(i as int)),
        decreases bytes.len() - i,
    {
        let byte: u8 = bytes[i];
        let ghost before = text@;
        text.append(hex_digit(byte / 16));
        text.append(hex_digit(byte % 16));
        proof {
            let shorter = bytes@.take(i as int);
            let longer = bytes@.take(i as int + 1);
            assert(text@ == before + seq![hex_alphabet()[byte as int / 16]] + seq![
                hex_alphabet()[byte as int % 16],
            ]);
            assert forall|k: int| 0 <= k < 2 * longer.len() implies text@[k] == hex_lower(
                longer,
            )[k] by {
                if k < 2 * i {
                    assert(longer[k / 2] == shorter[k / 2]);
                    assert(text@[k] == hex_lower(shorter)[k]);
                } else {
                    assert(k / 2 == i);
                    assert(longer[k / 2] == byte);
                }
            }
            assert(text@ =~= hex_lower(longer));
        }
        i += 1;
    }
    assert(bytes@.take(bytes.len() as int) =~= bytes@);
    text
}

/// A SHA-256 computation in progress. Its view is the input taken so far.
pub struct ContentHasher {
    inner: Sha256,
    fed: u64,
}

/// What a hasher answers to one more chunk of a stream.
pub enum HashStep {
    /// The chunk was taken in; the stream goes on.
    More(ContentHasher),
    /// The chunk was empty, which ends the stream: the digest text.
    Done(String),
    /// The chunk would bring the input over `MAX_INPUT_LEN` bytes.
    TooLong,
}

impl View for ContentHasher {
    type V = Seq<u8>;

    closed spec fn view(&self) -> Seq<u8> {
        absorbed(self.inner)
    }
}

impl ContentHasher {
    #[verifier::type_invariant]
    spec fn counted(self) -> bool {
        &&& self.fed == absorbed(self.inner).len()
        &&& self.fed <= MAX_INPUT_LEN
    }

    /// A hasher that has taken no input.
    pub fn new() -> (hasher: ContentHasher)
        ensures
            hasher@ == Seq::<u8>::empty(),
    {
        ContentHasher { inner: sha256_new(), fed: 0 }
    }

    /// Takes one chunk in, unless the input would grow over `MAX_INPUT_LEN`
    /// bytes; then the hasher stays as it is and the answer is `false`.
    pub fn update(&mut self, chunk: &[u8]) -> (taken: bool)
        ensures
            taken == (old(self)@.len() + chunk@.len() <= MAX_INPUT_LEN),
            taken ==> final(self)@ == old(self)@ + chunk@,
            !taken ==> final(self)@ == old(self)@,
    {
        proof {
            use_type_invariant(&*self);
        }
        if chunk.len() as u64 > MAX_INPUT_LEN - self.fed {
            return false;
        }
        let mut taken = ContentHasher::new();
        std::mem::swap(self, &mut taken);
        let ContentHasher { inner, fed } = taken;
        let mut inner = inner;
        sha256_update(&mut inner, chunk);
        *self = ContentHasher { inner, fed: fed + chunk.len() as u64 };
        true
    }

    /// Ends the stream: the digest of the whole input as 64 lowercase hex
    /// digits.
    pub fn finalize(self) -> (text: String)
        ensures
            text@ == hex_lower(sha256(self@)),
            is_digest_text(text@),
    {
        let digest = sha256_finalize(self.inner);
        proof {
            lemma_hex_lower_digits(digest@);
        }
        to_hex(digest.as_slice())
    }

    /// One step of hashing a stream that is read chunk by chunk: an empty
    /// chunk is the end of the stream, any other is more input.
    pub fn step(self, chunk: &[u8]) -> (next: HashStep)
        ensures
            match next {
                HashStep::Done(text) => {
                    &&& chunk@.len() == 0
                    &&& text@ == hex_lower(sha256(self@))
                    &&& is_digest_text(text@)
                },
                HashStep::More(hasher) => {
                    &&& chunk@.len() > 0
                    &&& self@.len() + chunk@.len() <= MAX_INPUT_LEN
                    &&& hasher@ == self@ + chunk@
                },
                HashStep::TooLong => {
                    &&& chunk@.len() > 0
                    &&& self@.len() + chunk@.len() > MAX_INPUT_LEN
                },
            },
    {
        if chunk.len() == 0 {
            return HashStep::Done(self.finalize());
        }
        let mut hasher = self;
        if hasher.update(chunk) {
            HashStep::More(hasher)
        } else {
            HashStep::TooLong
        }
    }
}

/// The joined length of a stream's first chunks is at most that of all of it.
proof fn lemma_joined_grows(chunks: Seq<Vec<u8>>, n: int)
    requires
        0 <= n <= chunks.len(),
    ensures
        joined(chunks.take(n)).len() <= joined(chunks).len(),
    decreases chunks.len(),
{
    if n == chunks.len() {
        assert(chunks.take(n) =~= chunks);
    } else {
        assert(chunks.drop_last().take(n) =~= chunks.take(n));
        lemma_joined_grows(chunks.drop_last(), n);
    }
}

/// The digest text of a stream given as its chunks, whatever way the stream
/// was cut into them. `None` where the stream is longer than `MAX_INPUT_LEN`.
pub fn hash_chunks(chunks: &Vec<Vec<u8>>) -> (digest: Option<String>)
    ensures
        digest is Some <==> joined(chunks@).len() <= MAX_INPUT_LEN,
        digest matches Some(text) ==> text@ == hex_lower(sha256(joined(chunks@))) && is_digest_text(
            text@,
        ),
{
    let mut hasher = ContentHasher::new();
    let mut i: usize = 0;
    assert(chunks@.take(0) =~= Seq::<Vec<u8>>::empty());
    while i < chunks.len()
        invariant
            i <= chunks.len(),
            hasher@ == joined(chunks@.take(i as int)),
        decreases chunks.len() - i,
    {
        proof {
            let longer = chunks@.take(i as int + 1);
            assert(longer.drop_last() =~= chunks@.take(i as int));
            assert(longer.last() == chunks@[i as int]);
            lemma_joined_grows(chunks@, i as int + 1);
        }
        if !hasher.update(chunks[i].as_slice()) {
            return None;
        }
        i += 1;
    }
    assert(chunks@.take(chunks.len() as int) =~= chunks@);
    proof {
        use_type_invariant(&hasher);
    }
    Some(hasher.finalize())
}

} // verus!
