use sha2::Digest;
use vstd::prelude::*;
use vstd::string::StringExecFns;

verus! {

/// The SHA-256 digest of a byte sequence, as the hashing crate computes it.
pub uninterp spec fn sha256_digest(data: Seq<u8>) -> Seq<u8>;

/// Content of this length or more is not hashed: the digest's bit counter
/// holds the content's length in bits in 64 bits.
pub const MAX_CONTENT_LEN: u64 = 0x2000_0000_0000_0000;

/// Whether content of length `len` can be hashed.
pub open spec fn hashable_len(len: nat) -> bool {
    len < MAX_CONTENT_LEN
}

/// Calls `sha2::Sha256::digest`. Trusted: the result is the digest of `data`,
/// which depends on `data` alone and is 32 bytes long. Input whose length in
/// bits does not fit in 64 bits is left out, since the crate's padding step
/// multiplies the byte count by eight in a `u64`.
#[verifier::external_body]
fn sha256(data: &[u8]) -> (digest: Vec<u8>)
    requires
        hashable_len(data@.len()),
    ensures
        digest@ == sha256_digest(data@),
        digest@.len() == 32,
{
    sha2::Sha256::digest(data).to_vec()
}

/// The lowercase hexadecimal digit for a value below sixteen.
pub open spec fn hex_digit(n: int) -> char {
    if n == 0 {
        '0'
    } else if n == 1 {
        '1'
    } else if n == 2 {
        '2'
    } else if n == 3 {
        '3'
    } else if n == 4 {
        '4'
    } else if n == 5 {
        '5'
    } else if n == 6 {
        '6'
    } else if n == 7 {
        '7'
    } else if n == 8 {
        '8'
    } else if n == 9 {
        '9'
    } else if n == 10 {
        'a'
    } else if n == 11 {
        'b'
    } else if n == 12 {
        'c'
    } else if n == 13 {
        'd'
    } else if n == 14 {
        'e'
    } else {
        'f'
    }
}

/// The half of `bytes[pos / 2]` that position `pos` of the hex text shows:
/// the high half at even positions, the low half at odd ones.
pub open spec fn nibble_at(bytes: Seq<u8>, pos: int) -> int {
    if pos % 2 == 0 {
        bytes[pos / 2] as int / 16
    } else {
        bytes[pos / 2] as int % 16
    }
}

/// The lowercase hex rendering of a byte sequence: two digits per byte, the
/// high half first.
pub open spec fn hex_lower(bytes: Seq<u8>) -> Seq<char> {
    Seq::new(2 * bytes.len(), |pos: int| hex_digit(nibble_at(bytes, pos)))
}

/// The identity of a file's content: the hex rendering of its digest.
pub open spec fn content_hash_spec(data: Seq<u8>) -> Seq<char> {
    hex_lower(sha256_digest(data))
}

fn hex_digit_text(n: u8) -> (text: &'static str)
    requires
        n < 16,
    ensures
        text@ == seq![hex_digit(n as int)],
{
    proof {
        reveal_strlit("0");
        reveal_strlit("1");
        reveal_strlit("2");
        reveal_strlit("3");
        reveal_strlit("4");
        reveal_strlit("5");
        reveal_strlit("6");
        reveal_strlit("7");
        reveal_strlit("8");
        reveal_strlit("9");
        reveal_strlit("a");
        reveal_strlit("b");
        reveal_strlit("c");
        reveal_strlit("d");
        reveal_strlit("e");
        reveal_strlit("f");
    }
    let text = match n {
        0 => "0",
        1 => "1",
        2 => "2",
        3 => "3",
        4 => "4",
        5 => "5",
        6 => "6",
        7 => "7",
        8 => "8",
        9 => "9",
        10 => "a",
        11 => "b",
        12 => "c",
        13 => "d",
        14 => "e",
        _ => "f",
    };
    assert(text@ =~= seq![hex_digit(n as int)]);
    text
}

/// Renders bytes as lowercase hex.
pub fn to_hex(bytes: &[u8]) -> (text: String)
    ensures
        text@ == hex_lower(bytes@),
{
    let mut text = String::new();
    let mut i: usize = 0;
    while i < bytes.len()
        invariant
            i <= bytes@.len(),
            text@.len() == 2 * i,
            forall|pos: int| 0 <= pos < 2 * i ==> text@[pos] == hex_digit(nibble_at(bytes@, pos)),
        decreases bytes@.len() - i,
    {
        let byte = bytes[i];
        let ghost before = text@;
        text.append(hex_digit_text(byte / 16));
        text.append(hex_digit_text(byte % 16));
        proof {
            assert(text@ =~= before.push(hex_digit(byte as int / 16)).push(
                hex_digit(byte as int % 16),
            ));
            assert forall|pos: int| 0 <= pos < 2 * (i + 1) implies text@[pos] == hex_digit(
                nibble_at(bytes@, pos),
            ) by {
                if pos < 2 * i {
                    assert(text@[pos] == before[pos]);
                }
            }
        }
        i = i + 1;
    }
    assert(text@ =~= hex_lower(bytes@));
    text
}

/// Computes the content hash of `data`, 64 hex digits: `None` exactly when
/// `data` is too long to hash.
pub fn content_hash(data: &[u8]) -> (hash: Option<String>)
    ensures
        hashable_len(data@.len()) ==> hash is Some && hash->0@ == content_hash_spec(data@),
        !hashable_len(data@.len()) ==> hash is None,
        hash matches Some(text) ==> text@.len() == 64,
{
    if (data.len() as u64) < MAX_CONTENT_LEN {
        let digest = sha256(data);
        Some(to_hex(digest.as_slice()))
    } else {
        None
    }
}

/// Distinct hex digits stand for distinct values.
pub proof fn lemma_hex_digit_injective(m: int, n: int)
    requires
        0 <= m < 16,
        0 <= n < 16,
        hex_digit(m) == hex_digit(n),
    ensures
        m == n,
{
}

/// The hex rendering loses nothing: equal renderings come from equal bytes.
pub proof fn lemma_hex_lower_injective(a: Seq<u8>, b: Seq<u8>)
    requires
        hex_lower(a) == hex_lower(b),
    ensures
        a == b,
{
    assert(hex_lower(a).len() == 2 * a.len());
    assert(hex_lower(b).len() == 2 * b.len());
    assert forall|i: int| 0 <= i < a.len() implies a[i] == b[i] by {
        let hi = 2 * i;
        let lo = 2 * i + 1;
        assert(hi / 2 == i && hi % 2 == 0);
        assert(lo / 2 == i && lo % 2 == 1);
        assert(hex_lower(a)[hi] == hex_digit(nibble_at(a, hi)));
        assert(hex_lower(b)[hi] == hex_digit(nibble_at(b, hi)));
        assert(hex_lower(a)[lo] == hex_digit(nibble_at(a, lo)));
        assert(hex_lower(b)[lo] == hex_digit(nibble_at(b, lo)));
        lemma_hex_digit_injective(a[i] as int / 16, b[i] as int / 16);
        lemma_hex_digit_injective(a[i] as int % 16, b[i] as int % 16);
    }
    assert(a =~= b);
}

/// Two contents have the same hash exactly when they have the same digest.
pub proof fn lemma_same_hash_same_digest(a: Seq<u8>, b: Seq<u8>)
    ensures
        (content_hash_spec(a) == content_hash_spec(b)) == (sha256_digest(a) == sha256_digest(b)),
{
    if content_hash_spec(a) == content_hash_spec(b) {
        lemma_hex_lower_injective(sha256_digest(a), sha256_digest(b));
    }
}

} // verus!
