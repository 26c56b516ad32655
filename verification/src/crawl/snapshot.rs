//! The bytes of a checkpoint: a list of URLs as `bincode` writes a
//! `Vec<String>` under its standard configuration.
//!
//! A length is written as one byte below 251, or as a tag byte (251, 252,
//! 253) and the number in two, four or eight bytes, least significant first.
//! A list is its length and then its items; a string is the length of its
//! UTF-8 bytes and then those bytes.
//!
//! `bincode` does the writing and the reading. Before it reads, this module
//! checks that every length in the bytes is covered by the bytes behind it,
//! so that no length read from a damaged file is ever taken for an amount of
//! memory to set aside.

use bincode::error::DecodeError;
use vstd::prelude::*;
use vstd::utf8::{decode_utf8, encode_utf8, valid_utf8};

verus! {

/// The first tag byte: lengths below it are written as themselves.
pub const SINGLE_BYTE_LIMIT: u8 = 251;

/// 256 to the power of `width`: what `width` bytes cannot hold.
pub open spec fn radix(width: nat) -> nat
    decreases width,
{
    if width == 0 {
        1
    } else {
        256 * radix((width - 1) as nat)
    }
}

/// `value` in `width` bytes, least significant first.
pub open spec fn le_bytes(value: nat, width: nat) -> Seq<u8>
    decreases width,
{
    if width == 0 {
        Seq::empty()
    } else {
        seq![(value % 256) as u8] + le_bytes(value / 256, (width - 1) as nat)
    }
}

/// The number that `bytes` hold, least significant first.
pub open spec fn le_value(bytes: Seq<u8>) -> nat
    decreases bytes.len(),
{
    if bytes.len() == 0 {
        0
    } else {
        bytes[0] as nat + 256 * le_value(bytes.drop_first())
    }
}

/// How a length is written.
pub open spec fn length_prefix(n: nat) -> Seq<u8> {
    if n < SINGLE_BYTE_LIMIT {
        seq![n as u8]
    } else if n < 0x1_0000 {
        seq![251u8] + le_bytes(n, 2)
    } else if n < 0x1_0000_0000 {
        seq![252u8] + le_bytes(n, 4)
    } else {
        seq![253u8] + le_bytes(n, 8)
    }
}

/// How one URL is written: the length of its UTF-8 bytes, then the bytes.
pub open spec fn record(url: Seq<char>) -> Seq<u8> {
    length_prefix(encode_utf8(url).len()) + encode_utf8(url)
}

/// How URLs are written one after another.
pub open spec fn records(urls: Seq<Seq<char>>) -> Seq<u8>
    decreases urls.len(),
{
    if urls.len() == 0 {
        Seq::empty()
    } else {
        record(urls.first()) + records(urls.drop_first())
    }
}

/// The bytes of a snapshot of `urls`: their number, then each in turn.
pub open spec fn snapshot_encoding(urls: Seq<Seq<char>>) -> Seq<u8> {
    length_prefix(urls.len()) + records(urls)
}

/// Every length that a snapshot of `urls` holds fits in eight bytes, as the
/// length of anything in memory does.
pub open spec fn fits(urls: Seq<Seq<char>>) -> bool {
    &&& urls.len() <= u64::MAX
    &&& forall|i: int| 0 <= i < urls.len() ==> encode_utf8(#[trigger] urls[i]).len() <= u64::MAX
}

/// How many bytes follow a tag byte; -1 for a byte that is no tag of a
/// length of at most eight bytes.
pub open spec fn tag_width(tag: u8) -> int {
    if tag < SINGLE_BYTE_LIMIT {
        0
    } else if tag == 251 {
        2
    } else if tag == 252 {
        4
    } else if tag == 253 {
        8
    } else {
        -1
    }
}

/// The length written at position `at`, and the position behind it; `None`
/// where the bytes end too early or begin with no tag.
pub open spec fn prefix_at(bytes: Seq<u8>, at: int) -> Option<(nat, int)> {
    if 0 <= at < bytes.len() {
        let width = tag_width(bytes[at]);
        if width < 0 || at + 1 + width > bytes.len() {
            None
        } else if width == 0 {
            Some((bytes[at] as nat, at + 1))
        } else {
            Some((le_value(bytes.subrange(at + 1, at + 1 + width)), at + 1 + width))
        }
    } else {
        None
    }
}

/// The contents of `count` strings written one after another from position
/// `at`; `None` where a length is damaged or reaches beyond the bytes.
pub open spec fn payloads_at(bytes: Seq<u8>, at: int, count: nat) -> Option<Seq<Seq<u8>>>
    decreases count,
{
    if count == 0 {
        Some(Seq::empty())
    } else {
        match prefix_at(bytes, at) {
            None => None,
            Some((len, start)) => if start + len > bytes.len() {
                None
            } else {
                match payloads_at(bytes, start + len, (count - 1) as nat) {
                    None => None,
                    Some(rest) => Some(seq![bytes.subrange(start, start + len)] + rest),
                }
            },
        }
    }
}

/// The contents of the strings of the list that `bytes` begin with; `None`
/// where the bytes do not frame a list of strings. What follows the list is
/// not looked at.
pub open spec fn snapshot_payloads(bytes: Seq<u8>) -> Option<Seq<Seq<u8>>> {
    match prefix_at(bytes, 0) {
        None => None,
        Some((count, start)) => payloads_at(bytes, start, count),
    }
}

/// Each of `payloads` is the UTF-8 writing of a text.
pub open spec fn all_text(payloads: Seq<Seq<u8>>) -> bool {
    forall|i: int| 0 <= i < payloads.len() ==> valid_utf8(#[trigger] payloads[i])
}

/// The URLs that `bytes` hold; `None` where the bytes do not frame a list of
/// strings or one of the strings is no UTF-8.
pub open spec fn snapshot_decoding(bytes: Seq<u8>) -> Option<Seq<Seq<char>>> {
    match snapshot_payloads(bytes) {
        None => None,
        Some(payloads) => if all_text(payloads) {
            Some(payloads.map_values(|payload: Seq<u8>| decode_utf8(payload)))
        } else {
            None
        },
    }
}

/// Bytes hold less than the radix of their number.
pub proof fn lemma_le_value_bound(bytes: Seq<u8>)
    ensures
        le_value(bytes) < radix(bytes.len()),
    decreases bytes.len(),
{
    if bytes.len() > 0 {
        lemma_le_value_bound(bytes.drop_first());
    }
}

/// A number below the radix of `width` is read back from its `width` bytes.
pub proof fn lemma_le_round_trip(value: nat, width: nat)
    requires
        value < radix(width),
    ensures
        le_bytes(value, width).len() == width,
        le_value(le_bytes(value, width)) == value,
    decreases width,
{
    if width > 0 {
        let rest = le_bytes(value / 256, (width - 1) as nat);
        lemma_le_round_trip(value / 256, (width - 1) as nat);
        assert(le_bytes(value, width).drop_first() =~= rest);
    }
}

/// What two, four and eight bytes cannot hold.
pub proof fn lemma_radix_values()
    ensures
        radix(0) == 1,
        radix(1) == 0x100,
        radix(2) == 0x1_0000,
        radix(3) == 0x100_0000,
        radix(4) == 0x1_0000_0000,
        radix(5) == 0x100_0000_0000,
        radix(6) == 0x1_0000_0000_0000,
        radix(7) == 0x100_0000_0000_0000,
        radix(8) == 0x1_0000_0000_0000_0000,
{
    reveal_with_fuel(radix, 10);
}

/// How many bytes follow the tag byte in the writing of a length that takes
/// more than one byte.
pub open spec fn written_width(n: nat) -> nat {
    if n < 0x1_0000 {
        2
    } else if n < 0x1_0000_0000 {
        4
    } else {
        8
    }
}

/// How many bytes the writing of a length takes.
pub proof fn lemma_length_prefix_len(n: nat)
    requires
        n <= u64::MAX,
    ensures
        length_prefix(n).len() == 1 + tag_width(length_prefix(n)[0]),
        1 <= length_prefix(n).len() <= 9,
{
    lemma_radix_values();
    if n >= SINGLE_BYTE_LIMIT {
        lemma_le_round_trip(n, written_width(n));
    }
}

/// A length is read back from where it was written.
pub proof fn lemma_prefix_round_trip(bytes: Seq<u8>, at: int, n: nat)
    requires
        n <= u64::MAX,
        0 <= at,
        at + length_prefix(n).len() <= bytes.len(),
        bytes.subrange(at, at + length_prefix(n).len()) == length_prefix(n),
    ensures
        prefix_at(bytes, at) == Some((n, at + length_prefix(n).len())),
{
    lemma_radix_values();
    lemma_length_prefix_len(n);
    let written = length_prefix(n);
    let window = bytes.subrange(at, at + written.len());
    if n >= SINGLE_BYTE_LIMIT {
        let width = written_width(n);
        lemma_le_round_trip(n, width);
        let end = 1 + width as int;
        assert(written.subrange(1, end) =~= le_bytes(n, width));
        assert(bytes.subrange(at + 1, at + end) =~= window.subrange(1, end));
    }
}

/// The contents of strings are read back from where the strings were
/// written one after another.
pub proof fn lemma_payloads_round_trip(bytes: Seq<u8>, at: int, urls: Seq<Seq<char>>)
    requires
        fits(urls),
        0 <= at,
        at + records(urls).len() <= bytes.len(),
        bytes.subrange(at, at + records(urls).len()) == records(urls),
    ensures
        payloads_at(bytes, at, urls.len()) == Some(
            urls.map_values(|url: Seq<char>| encode_utf8(url)),
        ),
    decreases urls.len(),
{
    if urls.len() > 0 {
        let text = encode_utf8(urls.first());
        let prefix = length_prefix(text.len());
        let rest = urls.drop_first();
        let all = records(urls);
        let window = bytes.subrange(at, at + all.len());
        assert(bytes.subrange(at, at + prefix.len()) =~= window.subrange(0, prefix.len() as int));
        assert(window.subrange(0, prefix.len() as int) =~= prefix);
        lemma_prefix_round_trip(bytes, at, text.len());
        let body = prefix.len() as int;
        let tail = body + text.len();
        let start = at + body;
        assert(bytes.subrange(start, start + text.len()) =~= window.subrange(body, tail));
        assert(window.subrange(body, tail) =~= text);
        let next = start + text.len();
        assert(bytes.subrange(next, next + records(rest).len()) =~= window.subrange(
            tail,
            all.len() as int,
        ));
        assert(window.subrange(tail, all.len() as int) =~= records(rest));
        assert(fits(rest));
        lemma_payloads_round_trip(bytes, next, rest);
    }
}

/// Reading back what was written gives what was written: the bytes of a
/// snapshot of `urls` hold exactly `urls`, in their order.
pub proof fn lemma_snapshot_round_trip(urls: Seq<Seq<char>>)
    requires
        fits(urls),
    ensures
        snapshot_decoding(snapshot_encoding(urls)) == Some(urls),
{
    broadcast use vstd::utf8::encode_utf8_valid_utf8, vstd::utf8::encode_utf8_decode_utf8;

    let bytes = snapshot_encoding(urls);
    let prefix = length_prefix(urls.len());
    assert(bytes.subrange(0, prefix.len() as int) =~= prefix);
    lemma_prefix_round_trip(bytes, 0, urls.len());
    let body = prefix.len() as int;
    assert(bytes.subrange(body, body + records(urls).len()) =~= records(urls));
    lemma_payloads_round_trip(bytes, body, urls);
}

/// Reads the length written at position `at`: the length and the position
/// behind it.
pub fn read_prefix(bytes: &[u8], at: usize) -> (found: Option<(u64, usize)>)
    ensures
        match found {
            Some((len, end)) => prefix_at(bytes@, at as int) == Some((len as nat, end as int)) && end
                <= bytes.len(),
            None => prefix_at(bytes@, at as int) is None,
        },
{
    if at >= bytes.len() {
        return None;
    }
    let tag = bytes[at];
    if tag < SINGLE_BYTE_LIMIT {
        return Some((tag as u64, at + 1));
    }
    let width: usize = if tag == 251 {
        2
    } else if tag == 252 {
        4
    } else if tag == 253 {
        8
    } else {
        return None;
    };
    if width > bytes.len() - at - 1 {
        return None;
    }
    let first: usize = at + 1;
    let ghost digits = bytes@.subrange(first as int, first + width);
    let mut value: u64 = 0;
    let mut i: usize = width;
    proof {
        lemma_radix_values();
    }
    while i > 0
        invariant
            i <= width <= 8,
            first + width <= bytes.len(),
            digits == bytes@.subrange(first as int, first + width),
            value == le_value(digits.subrange(i as int, width as int)),
        decreases i,
    {
        let ghost tail = digits.subrange(i as int, width as int);
        i -= 1;
        proof {
            let longer = digits.subrange(i as int, width as int);
            assert(longer.drop_first() =~= tail);
            lemma_le_value_bound(tail);
            lemma_le_value_bound(longer);
            lemma_radix_values();
            assert(radix(longer.len()) <= radix(8)) by {
                lemma_radix_grows(longer.len(), 8);
            }
        }
        value = value * 256 + bytes[first + i] as u64;
    }
    assert(digits.subrange(0, width as int) =~= digits);
    Some((value, first + width))
}

/// A wider radix is no smaller.
pub proof fn lemma_radix_grows(narrow: nat, wide: nat)
    requires
        narrow <= wide,
    ensures
        radix(narrow) <= radix(wide),
        radix(narrow) > 0,
    decreases wide,
{
    if narrow < wide {
        lemma_radix_grows(narrow, (wide - 1) as nat);
    } else if narrow > 0 {
        lemma_radix_grows((narrow - 1) as nat, (narrow - 1) as nat);
    }
}

/// Whether `bytes` frame a list of strings: whether every length in them is
/// covered by the bytes behind it.
pub fn is_framed(bytes: &[u8]) -> (framed: bool)
    ensures
        framed == (snapshot_payloads(bytes@) is Some),
{
    match read_prefix(bytes, 0) {
        None => false,
        Some((count, start)) => {
            let mut left: u64 = count;
            let mut at: usize = start;
            while left > 0
                invariant
                    at <= bytes.len(),
                    (snapshot_payloads(bytes@) is Some) == (payloads_at(
                        bytes@,
                        at as int,
                        left as nat,
                    ) is Some),
                decreases left,
            {
                match read_prefix(bytes, at) {
                    None => {
                        return false;
                    },
                    Some((len, body)) => {
                        if len > (bytes.len() - body) as u64 {
                            return false;
                        }
                        at = body + len as usize;
                        left -= 1;
                    },
                }
            }
            true
        },
    }
}

#[verifier::external_type_specification]
#[verifier::external_body]
pub struct ExDecodeError(DecodeError);

/// Calls `bincode::encode_to_vec` on the list under `config::standard()`.
/// Trusted: that the bytes are those of `snapshot_encoding`, which is the
/// format that bincode documents for a `Vec<String>` (variable-length
/// integers, little endian), and that writing into memory does not fail.
#[verifier::external_body]
pub(crate) fn encode_urls(urls: &Vec<String>) -> (bytes: Vec<u8>)
    ensures
        bytes@ == snapshot_encoding(urls.deep_view()),
{
    bincode::encode_to_vec(urls, bincode::config::standard()).expect("encoding into memory")
}

/// Calls `bincode::decode_from_slice` for a `Vec<String>` under
/// `config::standard()`. Trusted: that on bytes that frame a list of strings
/// it gives the strings whose UTF-8 the frames hold, and fails exactly where
/// one of them holds no UTF-8. The `requires` keeps away bytes on which
/// bincode would set memory aside for a length that the bytes do not cover.
#[verifier::external_body]
pub(crate) fn decode_urls(bytes: &[u8]) -> (decoded: Result<Vec<String>, DecodeError>)
    requires
        snapshot_payloads(bytes@) is Some,
    ensures
        match decoded {
            Ok(urls) => snapshot_decoding(bytes@) == Some(urls.deep_view()),
            Err(_) => snapshot_decoding(bytes@) is None,
        },
{
    match bincode::decode_from_slice::<Vec<String>, _>(bytes, bincode::config::standard()) {
        Ok((urls, _)) => Ok(urls),
        Err(error) => Err(error),
    }
}

} // verus!
