//! Base64 text (standard alphabet, padded) and data URIs.

use vstd::prelude::*;
use vstd::string::{StrSliceExecFns, StringExecFns};

verus! {

/// The sixty-four symbols, in the order of their values.
pub open spec fn alphabet() -> Seq<char> {
    "ABCDEFGHIJKLMNOPQRSTUVWXYZabcdefghijklmnopqrstuvwxyz0123456789+/"@
}

/// The symbol of the six-bit value `v`.
pub open spec fn symbol(v: int) -> char {
    alphabet()[v]
}

/// The four symbols of three whole bytes: their 24 bits, six at a time.
pub open spec fn full_group(b0: u8, b1: u8, b2: u8) -> Seq<char> {
    let n = b0 as int * 65536 + b1 as int * 256 + b2 as int;
    seq![symbol(n / 262144), symbol(n / 4096 % 64), symbol(n / 64 % 64), symbol(n % 64)]
}

/// The two symbols and two padding signs of a single last byte.
pub open spec fn last_one(b0: u8) -> Seq<char> {
    seq![symbol(b0 as int / 4), symbol(b0 as int % 4 * 16), '=', '=']
}

/// The three symbols and the padding sign of two last bytes.
pub open spec fn last_two(b0: u8, b1: u8) -> Seq<char> {
    let n = b0 as int * 256 + b1 as int;
    seq![symbol(n / 1024), symbol(n / 16 % 64), symbol(n % 16 * 4), '=']
}

/// The Base64 text of `bytes`.
pub open spec fn base64(bytes: Seq<u8>) -> Seq<char>
    decreases bytes.len(),
{
    if bytes.len() == 0 {
        Seq::empty()
    } else if bytes.len() == 1 {
        last_one(bytes[0])
    } else if bytes.len() == 2 {
        last_two(bytes[0], bytes[1])
    } else {
        full_group(bytes[0], bytes[1], bytes[2]) + base64(bytes.skip(3))
    }
}

/// The data URI of a PNG file: the media type, then the file in Base64.
pub open spec fn png_data_uri(png: Seq<u8>) -> Seq<char> {
    "data:image/png;base64,"@ + base64(png)
}

/// Base64 text is four characters for every three bytes, the last group padded.
pub proof fn lemma_base64_len(bytes: Seq<u8>)
    ensures
        base64(bytes).len() == 4 * ((bytes.len() + 2) / 3),
    decreases bytes.len(),
{
    if bytes.len() >= 3 {
        lemma_base64_len(bytes.skip(3));
    }
}

/// The one-character text of the symbol of `v`.
fn symbol_text(v: u32) -> (text: &'static str)
    requires
        v < 64,
    ensures
        text@ == seq![symbol(v as int)],
{
    let table = "ABCDEFGHIJKLMNOPQRSTUVWXYZabcdefghijklmnopqrstuvwxyz0123456789+/";
    proof {
        reveal_strlit("ABCDEFGHIJKLMNOPQRSTUVWXYZabcdefghijklmnopqrstuvwxyz0123456789+/");
    }
    let text = table.substring_ascii(v as usize, v as usize + 1);
    text
}

/// The Base64 text of `bytes`.
pub fn encode(bytes: &Vec<u8>) -> (text: String)
    ensures
        text@ == base64(bytes@),
{
    let mut text = String::new();
    append_base64(&mut text, bytes);
    text
}

/// Appends the Base64 text of `bytes` to `text`.
pub fn append_base64(text: &mut String, bytes: &Vec<u8>)
    ensures
        final(text)@ == old(text)@ + base64(bytes@),
{
    let ghost start = text@;
    let n = bytes.len();
    let mut i: usize = 0;
    assert(bytes@.skip(0) =~= bytes@);
    while n - i >= 3
        invariant
            i <= n,
            n == bytes@.len(),
            start + base64(bytes@) == text@ + base64(bytes@.skip(i as int)),
        decreases n - i,
    {
        let b0 = bytes[i] as u32;
        let b1 = bytes[i + 1] as u32;
        let b2 = bytes[i + 2] as u32;
        let group: u32 = b0 * 65536 + b1 * 256 + b2;
        text.append(symbol_text(group / 262144));
        text.append(symbol_text(group / 4096 % 64));
        text.append(symbol_text(group / 64 % 64));
        text.append(symbol_text(group % 64));
        proof {
            let rest = bytes@.skip(i as int);
            assert(rest.skip(3) =~= bytes@.skip(i + 3));
        }
        i += 3;
    }
    if n - i == 1 {
        let b0 = bytes[i] as u32;
        text.append(symbol_text(b0 / 4));
        text.append(symbol_text(b0 % 4 * 16));
        text.append("==");
        proof {
            reveal_strlit("==");
        }
    } else if n - i == 2 {
        let b0 = bytes[i] as u32;
        let b1 = bytes[i + 1] as u32;
        let pair: u32 = b0 * 256 + b1;
        text.append(symbol_text(pair / 1024));
        text.append(symbol_text(pair / 16 % 64));
        text.append(symbol_text(pair % 16 * 4));
        text.append("=");
        proof {
            reveal_strlit("=");
        }
    }
}

/// The data URI of a PNG file.
pub fn data_uri(png: &Vec<u8>) -> (uri: String)
    ensures
        uri@ == png_data_uri(png@),
{
    let mut uri = String::from_str("data:image/png;base64,");
    append_base64(&mut uri, png);
    uri
}

} // verus!
