//! The content fingerprint by which a file is recognised after it was moved:
//! its size and the SHA-256 of its leading bytes.
use sha2::{Digest, Sha256};
use vstd::prelude::*;

verus! {

/// How many leading bytes of a file enter its fingerprint.
pub const SAMPLE: usize = 65_536;

/// The SHA-256 digest of a sequence of bytes, as `sha2::Sha256` computes it.
pub uninterp spec fn sha256(data: Seq<u8>) -> Seq<u8>;

/// `sha2::Sha256::digest` returns the digest of the bytes that it is given: 32
/// bytes that depend on nothing else.
#[verifier::external_body]
fn sha256_of(data: &Vec<u8>) -> (r: Vec<u8>)
    ensures
        r@ == sha256(data@),
        r@.len() == 32,
{
    Sha256::digest(data).to_vec()
}

/// The `k` least significant bytes of `n`, the least significant first.
pub open spec fn le_bytes(n: nat, k: nat) -> Seq<u8>
    decreases k,
{
    if k == 0 {
        Seq::empty()
    } else {
        seq![(n % 256) as u8] + le_bytes(n / 256, (k - 1) as nat)
    }
}

/// The hexadecimal digit for `d` in `0..16`, in lower case.
pub open spec fn hex_digit(d: int) -> char {
    if d == 0 {
        '0'
    } else if d == 1 {
        '1'
    } else if d == 2 {
        '2'
    } else if d == 3 {
        '3'
    } else if d == 4 {
        '4'
    } else if d == 5 {
        '5'
    } else if d == 6 {
        '6'
    } else if d == 7 {
        '7'
    } else if d == 8 {
        '8'
    } else if d == 9 {
        '9'
    } else if d == 10 {
        'a'
    } else if d == 11 {
        'b'
    } else if d == 12 {
        'c'
    } else if d == 13 {
        'd'
    } else if d == 14 {
        'e'
    } else {
        'f'
    }
}

/// Bytes as hexadecimal text, two digits each.
pub open spec fn hex_text(bytes: Seq<u8>) -> Seq<char> {
    Seq::new(
        2 * bytes.len(),
        |i: int|
            if i % 2 == 0 {
                hex_digit(bytes[i / 2] as int / 16)
            } else {
                hex_digit(bytes[i / 2] as int % 16)
            },
    )
}

/// The leading bytes of a file that enter its fingerprint.
pub open spec fn sample_of(head: Seq<u8>) -> Seq<u8> {
    if head.len() <= SAMPLE {
        head
    } else {
        head.take(SAMPLE as int)
    }
}

/// The fingerprint of a file of a size with given leading bytes.
pub open spec fn quick_hash_of(file_size: nat, head: Seq<u8>) -> Seq<char> {
    hex_text(sha256(le_bytes(file_size, 8) + sample_of(head)))
}

/// The hexadecimal digit for `d`.
fn hex_char(d: u8) -> (c: char)
    requires
        d < 16,
    ensures
        c == hex_digit(d as int),
{
    match d {
        0 => '0',
        1 => '1',
        2 => '2',
        3 => '3',
        4 => '4',
        5 => '5',
        6 => '6',
        7 => '7',
        8 => '8',
        9 => '9',
        10 => 'a',
        11 => 'b',
        12 => 'c',
        13 => 'd',
        14 => 'e',
        _ => 'f',
    }
}

/// Bytes as hexadecimal text.
fn to_hex(bytes: &Vec<u8>) -> (r: String)
    ensures
        r@ == hex_text(bytes@),
{
    let mut out = String::new();
    let mut i: usize = 0;
    assert(out@ =~= hex_text(bytes@.take(0)));
    while i < bytes.len()
        invariant
            i <= bytes@.len(),
            out@ == hex_text(bytes@.take(i as int)),
        decreases bytes@.len() - i,
    {
        let b: u8 = bytes[i];
        out.push(hex_char(b / 16));
        out.push(hex_char(b % 16));
        assert(out@ =~= hex_text(bytes@.take(i + 1)));
        i += 1;
    }
    assert(bytes@.take(i as int) =~= bytes@);
    out
}

/// Cheap content fingerprint of a file: the SHA-256, in hexadecimal, of its size
/// followed by its leading bytes.
pub fn quick_hash(file_size: u64, head: &Vec<u8>) -> (r: String)
    ensures
        r@ == quick_hash_of(file_size as nat, head@),
        r@.len() == 64,
{
    let mut data: Vec<u8> = Vec::new();
    let mut n: u64 = file_size;
    let mut k: usize = 0;
    assert(data@ + le_bytes(n as nat, 8) =~= le_bytes(file_size as nat, 8));
    while k < 8
        invariant
            k <= 8,
            data@ + le_bytes(n as nat, (8 - k) as nat) == le_bytes(file_size as nat, 8),
        decreases 8 - k,
    {
        let ghost prev = data@;
        let b: u8 = (n % 256) as u8;
        data.push(b);
        assert(data@ + le_bytes(n as nat / 256, (7 - k) as nat) =~= prev + le_bytes(
            n as nat,
            (8 - k) as nat,
        ));
        n = n / 256;
        k += 1;
    }
    assert(data@ =~= le_bytes(file_size as nat, 8));
    let mut i: usize = 0;
    while i < head.len() && i < SAMPLE
        invariant
            i <= head@.len(),
            i <= SAMPLE,
            data@ == le_bytes(file_size as nat, 8) + head@.take(i as int),
        decreases head@.len() - i,
    {
        data.push(head[i]);
        assert(data@ =~= le_bytes(file_size as nat, 8) + head@.take(i + 1));
        i += 1;
    }
    assert(head@.take(i as int) =~= sample_of(head@));
    to_hex(&sha256_of(&data))
}

} // verus!
