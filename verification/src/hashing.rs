//! Identity keys. A key is the lowercase-hex SHA-256 digest of an identity
//! string: for a file, its content followed by its base name; for a
//! directory, its absolute path.

use vstd::prelude::*;
use vstd::string::StringExecFns;
use sha2::Digest;
use sha2::Sha256;

verus! {

/// The SHA-256 digest of the UTF-8 bytes of an identity string: a function
/// of the characters alone, the same in every process and on every machine.
pub uninterp spec fn sha256_of(ident: Seq<char>) -> Seq<u8>;

/// Relies on sha2's `Sha256` through the `Digest` trait (`new`, `update`,
/// `finalize`): the digest depends on the input bytes alone, and is 32 bytes
/// long by the hasher's output size.
#[verifier::external_body]
fn sha256_digest(ident: &str) -> (r: Vec<u8>)
    ensures
        r@ == sha256_of(ident@),
        r@.len() == 32,
{
    let mut hasher = Sha256::new();
    hasher.update(ident.as_bytes());
    hasher.finalize().as_slice().to_vec()
}

/// Relies on std's `String::push`: appends the given char to the string.
pub assume_specification[ String::push ](s: &mut String, ch: char)
    ensures
        final(s)@ == old(s)@.push(ch),
;

/// The sixteen lowercase hexadecimal digits, by value.
pub open spec fn hex_digit(n: u8) -> char {
    seq!['0', '1', '2', '3', '4', '5', '6', '7', '8', '9', 'a', 'b', 'c', 'd', 'e', 'f'][n as int]
}

/// Lowercase-hex encoding of a byte sequence, two digits per byte.
pub open spec fn hex_of(bytes: Seq<u8>) -> Seq<char>
    decreases bytes.len(),
{
    if bytes.len() == 0 {
        Seq::empty()
    } else {
        hex_of(bytes.drop_last())
            + seq![hex_digit(bytes.last() / 16), hex_digit(bytes.last() % 16)]
    }
}

/// Hex encoding yields two digits per byte.
pub proof fn lemma_hex_of_len(bytes: Seq<u8>)
    ensures
        hex_of(bytes).len() == 2 * bytes.len(),
    decreases bytes.len(),
{
    if bytes.len() > 0 {
        lemma_hex_of_len(bytes.drop_last());
    }
}

/// The identity key of an identity string.
pub open spec fn spec_generate_key(ident: Seq<char>) -> Seq<char> {
    hex_of(sha256_of(ident))
}

/// The identity string of a file: its content followed by its base name.
pub open spec fn spec_file_identity(content: Seq<char>, name: Seq<char>) -> Seq<char> {
    content + name
}

/// The identity key of a file.
pub open spec fn spec_file_key(content: Seq<char>, name: Seq<char>) -> Seq<char> {
    spec_generate_key(spec_file_identity(content, name))
}

fn hex_digit_char(n: u8) -> (c: char)
    requires
        n < 16,
    ensures
        c == hex_digit(n),
{
    match n {
        0 => '0',
        1 => '1',
        2 => '2',
        3 => '3',
        4 => '4',
        5 => '5',
        6 => '6',
        7 => '7',
        8 => '8',
        9 => '9',
        10 => 'a',
        11 => 'b',
        12 => 'c',
        13 => 'd',
        14 => 'e',
        _ => 'f',
    }
}

/// Lowercase-hex encoding of a byte vector.
fn to_hex(bytes: &Vec<u8>) -> (r: String)
    ensures
        r@ == hex_of(bytes@),
{
    let mut r = String::new();
    let mut i: usize = 0;
    while i < bytes.len()
        invariant
            i <= bytes.len(),
            r@ == hex_of(bytes@.subrange(0, i as int)),
        decreases bytes.len() - i,
    {
        let b = bytes[i];
        r.push(hex_digit_char(b / 16));
        r.push(hex_digit_char(b % 16));
        proof {
            let pre = bytes@.subrange(0, i as int);
            let cur = bytes@.subrange(0, i + 1);
            assert(cur.drop_last() =~= pre);
            assert(cur.last() == bytes@[i as int]);
            assert(r@ =~= hex_of(cur));
        }
        i += 1;
    }
    proof {
        assert(bytes@.subrange(0, bytes@.len() as int) =~= bytes@);
    }
    r
}

/// The identity key of an identity string: the lowercase-hex SHA-256 digest.
pub fn generate_key(ident: &str) -> (r: String)
    ensures
        r@ == spec_generate_key(ident@),
        r@.len() == 64,
{
    let digest = sha256_digest(ident);
    proof {
        lemma_hex_of_len(digest@);
    }
    to_hex(&digest)
}

/// The identity key of a file with the given content and base name.
pub fn file_key(content: &String, name: &String) -> (r: String)
    ensures
        r@ == spec_file_key(content@, name@),
        r@.len() == 64,
{
    let ident = content.clone().concat(name.as_str());
    generate_key(ident.as_str())
}

/// Two files with the same content and the same base name get the same
/// identity key wherever they stand; the same content under two different
/// names yields two different identity strings.
pub proof fn lemma_key_identity(c1: Seq<char>, n1: Seq<char>, c2: Seq<char>, n2: Seq<char>)
    ensures
        c1 == c2 && n1 == n2 ==> spec_file_key(c1, n1) == spec_file_key(c2, n2),
        c1 == c2 && n1 != n2 ==> spec_file_identity(c1, n1) != spec_file_identity(c2, n2),
{
    if c1 == c2 && n1 != n2 {
        let a = spec_file_identity(c1, n1);
        let b = spec_file_identity(c2, n2);
        if n1.len() != n2.len() {
            assert(a.len() != b.len());
        } else {
            assert(!(n1 =~= n2));
            let i = choose|i: int| 0 <= i < n1.len() && n1[i] != n2[i];
            assert(a[c1.len() + i] != b[c1.len() + i]);
        }
    }
}

} // verus!
