use vstd::prelude::*;

use hex::ToHex;
use sha2::{Digest, Sha256};

use crate::ext::TakeExt;
use crate::paths::{display_of, ArtifactPath};

verus! {

/// The SHA-256 digest of a byte sequence.
pub uninterp spec fn sha256_of(data: Seq<u8>) -> Seq<u8>;

/// The lowercase hexadecimal digit for a value below 16.
pub open spec fn hex_digit(v: int) -> char {
    seq!['0', '1', '2', '3', '4', '5', '6', '7', '8', '9', 'a', 'b', 'c', 'd', 'e', 'f'][v]
}

/// Two lowercase hexadecimal digits per byte, the high half first.
pub open spec fn hex_lower(b: Seq<u8>) -> Seq<char>
    decreases b.len(),
{
    if b.len() == 0 {
        Seq::empty()
    } else {
        hex_lower(b.drop_last()) + seq![
            hex_digit(b.last() as int / 16),
            hex_digit(b.last() as int % 16),
        ]
    }
}

/// The digest of some content as it stands in a ledger: SHA-256 in lowercase hex.
pub open spec fn digest_text(data: Seq<u8>) -> Seq<char> {
    hex_lower(sha256_of(data))
}

/// A ledger entry: the digest of the content, two spaces and the file name.
pub open spec fn checksum_entry(name: Seq<char>, data: Seq<u8>) -> Seq<char> {
    digest_text(data) + seq![' ', ' '] + name
}

/// A ledger line: an entry ended by a newline.
pub open spec fn checksum_line(name: Seq<char>, data: Seq<u8>) -> Seq<char> {
    checksum_entry(name, data) + seq!['\n']
}

/// Relies on sha2's `Sha256::digest`: the SHA-256 digest of the bytes, whose
/// output size is 32 bytes.
#[verifier::external_body]
fn sha256_bytes(data: &[u8]) -> (r: Vec<u8>)
    ensures
        r@ == sha256_of(data@),
        r@.len() == 32,
{
    Sha256::digest(data).to_vec()
}

/// Relies on hex's `ToHex::encode_hex`: each byte becomes two lowercase
/// digits, the high half first.
#[verifier::external_body]
fn encode_hex_lower(bytes: &[u8]) -> (r: String)
    ensures
        r@ == hex_lower(bytes@),
{
    bytes.encode_hex::<String>()
}

/// Every character of a hex text is a digit or a letter `a` to `f`: never a
/// space or a newline.
pub proof fn lemma_hex_chars(b: Seq<u8>)
    ensures
        hex_lower(b).len() == 2 * b.len(),
        forall|i: int|
            0 <= i < hex_lower(b).len() ==> #[trigger] hex_lower(b)[i] != ' ' && hex_lower(b)[i]
                != '\n',
    decreases b.len(),
{
    if b.len() > 0 {
        lemma_hex_chars(b.drop_last());
        let pre = hex_lower(b.drop_last());
        let hi = b.last() as int / 16;
        let lo = b.last() as int % 16;
        assert(0 <= hi < 16 && 0 <= lo < 16);
        let digits = seq!['0', '1', '2', '3', '4', '5', '6', '7', '8', '9', 'a', 'b', 'c', 'd', 'e', 'f'];
        assert(forall|k: int| 0 <= k < 16 ==> #[trigger] digits[k] != ' ' && digits[k] != '\n');
        assert(hex_lower(b) == pre + seq![hex_digit(hi), hex_digit(lo)]);
        assert forall|i: int| 0 <= i < hex_lower(b).len() implies #[trigger] hex_lower(b)[i] != ' '
            && hex_lower(b)[i] != '\n' by {
            if i >= pre.len() {
                assert(hex_lower(b)[i] == digits[if i == pre.len() { hi } else { lo }]);
            } else {
                assert(hex_lower(b)[i] == pre[i]);
            }
        }
    }
}

/// Calculates the SHA-256 digest of some content, as lowercase hex.
pub fn sha256_digest(data: &[u8]) -> (r: String)
    ensures
        r@ == digest_text(data@),
{
    let digest = sha256_bytes(data);
    encode_hex_lower(digest.as_slice())
}

/// The canonical ledger line: the digest, two spaces, the file name and a
/// newline, as checksum-verification tools read it.
pub fn format_line(digest: &str, filename: &str) -> (r: String)
    ensures
        r@ == digest@ + seq![' ', ' '] + filename@ + seq!['\n'],
{
    let mut line = digest.to_owned();
    proof {
        reveal_strlit("  ");
        reveal_strlit("\n");
    }
    line.append("  ");
    line.append(filename);
    line.append("\n");
    line
}

/// The ledger line of an artifact: the digest of its content, two spaces and
/// its file name, ended by a newline.
pub fn checksum(wasm_path: &ArtifactPath, contents: &[u8]) -> (r: String)
    requires
        wasm_path@.len() > 0,
    ensures
        r@ == checksum_line(wasm_path@.last(), contents@),
{
    let digest = sha256_digest(contents);
    let name = wasm_path.rtake(1).display();
    proof {
        let one = wasm_path@.subrange(wasm_path@.len() - 1, wasm_path@.len() as int);
        assert(one.drop_last() =~= Seq::<Seq<char>>::empty());
        assert(display_of(one.drop_last()) =~= Seq::<char>::empty());
        assert(display_of(one) =~= wasm_path@.last());
    }
    format_line(digest.as_str(), name.as_str())
}

} // verus!
