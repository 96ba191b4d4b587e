//! Private-key texts come in two encodings, told apart by a prefix.

use vstd::prelude::*;

verus! {

/// The encoding of a private-key text.
#[derive(Clone, Copy, Debug, PartialEq, Eq)]
pub enum KeyEncoding {
    /// Bech32, with the human-readable part `suiprivkey`.
    Bech32,
    /// Base64 of the scheme flag followed by the key bytes.
    Base64,
}

/// Why a private-key text could not be imported: the encoding tried failed.
#[derive(Clone, Copy, Debug, PartialEq, Eq)]
pub enum KeyImportError {
    InvalidBech32,
    InvalidBase64,
}

pub open spec fn bech32_key_prefix() -> Seq<char> {
    seq!['s', 'u', 'i', 'p', 'r', 'i', 'v', 'k', 'e', 'y']
}

pub open spec fn key_encoding_spec(s: Seq<char>) -> KeyEncoding {
    if s.len() >= bech32_key_prefix().len() && s.take(bech32_key_prefix().len() as int)
        == bech32_key_prefix() {
        KeyEncoding::Bech32
    } else {
        KeyEncoding::Base64
    }
}

/// The encoding to decode a private-key text with: Bech32 when it starts
/// with `suiprivkey`, else Base64.
pub fn key_encoding(s: &str) -> (r: KeyEncoding)
    ensures
        r == key_encoding_spec(s@),
{
    let prefix: &str = "suiprivkey";
    proof {
        reveal_strlit("suiprivkey");
        assert(prefix@ =~= bech32_key_prefix());
    }
    let k: usize = prefix.unicode_len();
    let n: usize = s.unicode_len();
    if n < k {
        return KeyEncoding::Base64;
    }
    let mut i: usize = 0;
    while i < k
        invariant
            k == prefix@.len(),
            prefix@ == bech32_key_prefix(),
            k <= n,
            n == s@.len(),
            i <= k,
            s@.take(i as int) == prefix@.take(i as int),
        decreases k - i,
    {
        if s.get_char(i) != prefix.get_char(i) {
            proof {
                assert(s@.take(k as int)[i as int] != prefix@[i as int]);
            }
            return KeyEncoding::Base64;
        }
        proof {
            assert(s@.take(i + 1) =~= s@.take(i as int).push(s@[i as int]));
            assert(prefix@.take(i + 1) =~= prefix@.take(i as int).push(prefix@[i as int]));
        }
        i = i + 1;
    }
    proof {
        assert(prefix@.take(k as int) =~= prefix@);
    }
    KeyEncoding::Bech32
}

/// The error for a private-key text that its encoding did not decode.
pub fn key_import_error(encoding: KeyEncoding) -> (r: KeyImportError)
    ensures
        r == (match encoding {
            KeyEncoding::Bech32 => KeyImportError::InvalidBech32,
            KeyEncoding::Base64 => KeyImportError::InvalidBase64,
        }),
{
    match encoding {
        KeyEncoding::Bech32 => KeyImportError::InvalidBech32,
        KeyEncoding::Base64 => KeyImportError::InvalidBase64,
    }
}

} // verus!
