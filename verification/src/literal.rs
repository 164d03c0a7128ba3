//! Literal strings: text packed into operand words, four bytes to a word,
//! low byte first, ended by a zero byte in the last word.

use crate::spv::{Imm, Operand};
use vstd::prelude::*;
use vstd::utf8::{decode_utf8, valid_utf8};

verus! {

/// The four bytes of a word, low byte first.
pub open spec fn word_bytes(w: u32) -> Seq<u8> {
    seq![
        (w % 0x100) as u8,
        ((w / 0x100) % 0x100) as u8,
        ((w / 0x1_0000) % 0x100) as u8,
        (w / 0x100_0000) as u8,
    ]
}

/// The bytes of a sequence of words, in order.
pub open spec fn words_bytes(words: Seq<u32>) -> Seq<u8>
    decreases words.len(),
{
    if words.len() == 0 {
        Seq::empty()
    } else {
        words_bytes(words.drop_last()) + word_bytes(words.last())
    }
}

/// The bytes before the first zero byte; all of them if there is none.
pub open spec fn until_nul(bytes: Seq<u8>) -> Seq<u8>
    decreases bytes.len(),
{
    if bytes.len() == 0 {
        Seq::empty()
    } else {
        let before = until_nul(bytes.drop_last());
        if before.len() == bytes.len() - 1 && bytes.last() != 0 {
            before.push(bytes.last())
        } else {
            before
        }
    }
}

/// The words that a sequence of immediate operands carries.
pub open spec fn operand_words(operands: Seq<Operand>) -> Seq<u32> {
    Seq::new(
        operands.len(),
        |i: int|
            match operands[i] {
                Operand::Imm(imm) => imm.spec_word(),
                _ => 0u32,
            },
    )
}

/// Whether the operands are the immediates of one literal: a single `Short`,
/// or a `LongStart` followed by `LongCont`s only.
pub open spec fn literal_layout(operands: Seq<Operand>) -> bool {
    &&& operands.len() >= 1
    &&& operands[0] matches Operand::Imm(first) && (first is LongStart || (first is Short
        && operands.len() == 1))
    &&& forall|i: int|
        1 <= i < operands.len() ==> (#[trigger] operands[i] matches Operand::Imm(imm)
            && imm is LongCont)
}

/// The bytes of the literal that the operands carry: those before the first
/// zero byte.
pub open spec fn literal_bytes(operands: Seq<Operand>) -> Seq<u8> {
    until_nul(words_bytes(operand_words(operands)))
}

/// Whether the operands carry one literal string: they are laid out as one
/// literal, and the first zero byte lies in the last word.
pub open spec fn is_literal_string(operands: Seq<Operand>) -> bool {
    &&& literal_layout(operands)
    &&& 4 * (operands.len() - 1) <= literal_bytes(operands).len() < 4 * operands.len()
}

/// The string that a literal's bytes decode to, or the bytes themselves where
/// they are not UTF-8.
pub open spec fn decode_literal(bytes: Seq<u8>) -> Result<Seq<char>, Seq<u8>> {
    if valid_utf8(bytes) {
        Ok(decode_utf8(bytes))
    } else {
        Err(bytes)
    }
}

/// The words in which `String::from_utf8` says why the bytes are not UTF-8.
pub uninterp spec fn utf8_error_text(bytes: Seq<u8>) -> Seq<char>;

/// Bytes that are not UTF-8, and why they are not, in the standard library's
/// words.
#[derive(Debug, PartialEq, Eq)]
pub struct InvalidUtf8 {
    pub bytes: Vec<u8>,
    pub error: String,
}

/// `String::from_utf8`, with the text and `FromUtf8Error::into_bytes` of its
/// error on failure: assumed to succeed exactly on UTF-8, then with the
/// string that the bytes encode, and else to hand the bytes back, with the
/// error's words.
#[verifier::external_body]
fn string_from_utf8(bytes: Vec<u8>) -> (r: Result<String, InvalidUtf8>)
    ensures
        r is Ok <==> valid_utf8(bytes@),
        r matches Ok(s) ==> s@ == decode_utf8(bytes@),
        r matches Err(e) ==> e.bytes@ == bytes@ && e.error@ == utf8_error_text(bytes@),
{
    match String::from_utf8(bytes) {
        Ok(s) => Ok(s),
        Err(e) => {
            let error = format!("{}", e);
            Err(InvalidUtf8 { bytes: e.into_bytes(), error })
        },
    }
}

proof fn lemma_words_bytes_len(words: Seq<u32>)
    ensures
        words_bytes(words).len() == 4 * words.len(),
    decreases words.len(),
{
    if words.len() > 0 {
        lemma_words_bytes_len(words.drop_last());
    }
}

proof fn lemma_until_nul_prefix(bytes: Seq<u8>)
    ensures
        until_nul(bytes).len() <= bytes.len(),
        until_nul(bytes) == bytes.take(until_nul(bytes).len() as int),
        forall|i: int| 0 <= i < until_nul(bytes).len() ==> bytes[i] != 0,
        until_nul(bytes).len() < bytes.len() ==> bytes[until_nul(bytes).len() as int] == 0,
    decreases bytes.len(),
{
    if bytes.len() > 0 {
        let front = bytes.drop_last();
        lemma_until_nul_prefix(front);
        let before = until_nul(front);
        if before.len() == bytes.len() - 1 && bytes.last() != 0 {
            assert(before.push(bytes.last()) =~= bytes.take(bytes.len() as int));
        } else {
            assert(front.take(before.len() as int) =~= bytes.take(before.len() as int));
        }
        assert forall|i: int| 0 <= i < until_nul(bytes).len() implies bytes[i] != 0 by {
            if i < front.len() {
                assert(bytes[i] == front[i]);
            }
        }
        if until_nul(bytes).len() < bytes.len() && before.len() < front.len() {
            assert(bytes[before.len() as int] == front[before.len() as int]);
        }
    } else {
        assert(until_nul(bytes) =~= bytes.take(0));
    }
}

/// Bytes behind a zero byte do not change what stands before it.
proof fn lemma_until_nul_stops(bytes: Seq<u8>, more: Seq<u8>)
    requires
        until_nul(bytes).len() < bytes.len(),
    ensures
        until_nul(bytes + more) == until_nul(bytes),
    decreases more.len(),
{
    if more.len() == 0 {
        assert(bytes + more =~= bytes);
    } else {
        lemma_until_nul_stops(bytes, more.drop_last());
        assert((bytes + more).drop_last() =~= bytes + more.drop_last());
    }
}

/// Bytes without a zero byte are all kept.
proof fn lemma_until_nul_all(bytes: Seq<u8>)
    requires
        forall|i: int| 0 <= i < bytes.len() ==> bytes[i] != 0,
    ensures
        until_nul(bytes) == bytes,
    decreases bytes.len(),
{
    if bytes.len() > 0 {
        lemma_until_nul_all(bytes.drop_last());
        assert(bytes.drop_last().push(bytes.last()) =~= bytes);
    }
}

/// The bytes of a word, low byte first.
fn split_word(w: u32) -> (bytes: [u8; 4])
    ensures
        bytes@ == word_bytes(w),
{
    let bytes = [
        (w % 0x100) as u8,
        ((w / 0x100) % 0x100) as u8,
        ((w / 0x1_0000) % 0x100) as u8,
        (w / 0x100_0000) as u8,
    ];
    assert(bytes@ =~= word_bytes(w));
    bytes
}

/// Whether the operands are laid out as one literal.
fn has_literal_layout(operands: &[Operand]) -> (r: bool)
    ensures
        r == literal_layout(operands@),
{
    if operands.len() == 0 {
        return false;
    }
    match operands[0] {
        Operand::Imm(Imm::LongStart(_, _)) => {},
        Operand::Imm(Imm::Short(_, _)) => {
            if operands.len() != 1 {
                return false;
            }
        },
        _ => {
            return false;
        },
    }
    let mut i: usize = 1;
    while i < operands.len()
        invariant
            1 <= i <= operands@.len(),
            forall|j: int|
                1 <= j < i ==> (#[trigger] operands@[j] matches Operand::Imm(imm)
                    && imm is LongCont),
        decreases operands@.len() - i,
    {
        match operands[i] {
            Operand::Imm(Imm::LongCont(_, _)) => {},
            _ => {
                return false;
            },
        }
        i += 1;
    }
    true
}

/// The bytes of the literal string that the operands carry, or `None` where
/// they do not carry one.
pub fn read_literal(operands: &[Operand]) -> (r: Option<Vec<u8>>)
    ensures
        r is Some <==> is_literal_string(operands@),
        r matches Some(bytes) ==> bytes@ == literal_bytes(operands@),
{
    if !has_literal_layout(operands) {
        return None;
    }
    let ghost words = operand_words(operands@);
    let n = operands.len();
    let mut bytes: Vec<u8> = Vec::new();
    let mut i: usize = 0;
    while i < n
        invariant
            n == operands@.len(),
            literal_layout(operands@),
            words == operand_words(operands@),
            i <= operands@.len(),
            bytes@ == words_bytes(words.take(i as int)),
            until_nul(bytes@) == bytes@,
        decreases operands@.len() - i,
    {
        let word = match operands[i] {
            Operand::Imm(imm) => imm.word(),
            _ => 0,
        };
        assert(word == words[i as int]);
        let four = split_word(word);
        let ghost before = bytes@;
        proof {
            assert(words.take(i + 1).drop_last() =~= words.take(i as int));
            lemma_words_bytes_len(words.take(i as int));
            lemma_until_nul_prefix(before);
        }
        let mut k: usize = 0;
        while k < 4
            invariant
                k <= 4,
                four@ == word_bytes(word),
                bytes@ == before + four@.take(k as int),
                until_nul(bytes@) == bytes@,
                before.len() == 4 * i,
                i < operands@.len(),
                n == operands@.len(),
                literal_layout(operands@),
                words == operand_words(operands@),
                word == words[i as int],
                words_bytes(words.take(i + 1)) == before + four@,
            decreases 4 - k,
        {
            let b = four[k];
            if b == 0 {
                proof {
                    // The literal ends here: the bytes so far, then a zero.
                    let upto = bytes@.push(0u8);
                    assert(upto.drop_last() =~= bytes@);
                    assert(until_nul(upto) == bytes@);
                    let here = before + four@;
                    assert(here =~= upto + four@.skip(k + 1));
                    lemma_until_nul_stops(upto, four@.skip(k + 1));
                    let all = words_bytes(words);
                    lemma_words_bytes_prefix(words, i + 1);
                    lemma_until_nul_stops(here, all.skip(here.len() as int));
                    assert(all =~= here + all.skip(here.len() as int));
                    assert(until_nul(all) == bytes@);
                    assert(bytes@.len() == 4 * i + k);
                }
                return if i + 1 == n {
                    Some(bytes)
                } else {
                    None
                };
            }
            bytes.push(b);
            proof {
                assert(bytes@ =~= before + four@.take(k + 1));
                assert(bytes@.drop_last() =~= before + four@.take(k as int));
            }
            k += 1;
        }
        assert(four@.take(4) =~= four@);
        i += 1;
    }
    proof {
        assert(words.take(words.len() as int) =~= words);
        lemma_words_bytes_len(words);
    }
    None
}

proof fn lemma_words_bytes_prefix(words: Seq<u32>, n: int)
    requires
        0 <= n <= words.len(),
    ensures
        words_bytes(words.take(n)).len() == 4 * n,
        words_bytes(words).len() == 4 * words.len(),
        words_bytes(words) == words_bytes(words.take(n)) + words_bytes(words).skip(4 * n),
    decreases words.len(),
{
    lemma_words_bytes_len(words);
    lemma_words_bytes_len(words.take(n));
    if n == words.len() {
        assert(words.take(n) =~= words);
        assert(words_bytes(words) =~= words_bytes(words) + words_bytes(words).skip(4 * n));
    } else {
        let front = words.drop_last();
        lemma_words_bytes_prefix(front, n);
        assert(front.take(n) =~= words.take(n));
        assert(words_bytes(words) =~= words_bytes(words.take(n)) + words_bytes(words).skip(
            4 * n,
        ));
    }
}

/// The literal string that the operands carry; or, where its bytes are not
/// UTF-8, the bytes and why they are not.
pub fn extract_literal_string(operands: &[Operand]) -> (r: Result<String, InvalidUtf8>)
    requires
        is_literal_string(operands@),
    ensures
        match r {
            Ok(s) => decode_literal(literal_bytes(operands@)) == Ok::<Seq<char>, Seq<u8>>(s@),
            Err(e) => decode_literal(literal_bytes(operands@)) == Err::<Seq<char>, Seq<u8>>(
                e.bytes@,
            ) && e.error@ == utf8_error_text(e.bytes@),
        },
{
    match read_literal(operands) {
        Some(bytes) => string_from_utf8(bytes),
        None => Err(InvalidUtf8 { bytes: Vec::new(), error: String::new() }),
    }
}

} // verus!
