//! The counting model: words within a line, and totals over a line sequence.
use vstd::prelude::*;
use vstd::utf8::char_is_scalar;
use vstd::utf8::encode_scalar;
use vstd::utf8::encode_utf8;
use vstd::utf8::has_width_1_encoding;
use vstd::utf8::has_width_2_encoding;
use vstd::utf8::has_width_3_encoding;
use crate::text::byte_len;
use crate::text::char_is_ascii_wsp;
use crate::text::is_ascii_wsp;
use crate::text::lemma_encode_utf8_concat;

verus! {

/// Words remaining in `s` when the character before `s` was whitespace
/// exactly when `prev_wsp` holds.  A word starts at each transition from
/// whitespace to non-whitespace.
pub open spec fn words_rec(s: Seq<char>, prev_wsp: bool) -> nat
    decreases s.len(),
{
    if s.len() == 0 {
        0
    } else {
        (if prev_wsp && !is_ascii_wsp(s[0]) {
            1nat
        } else {
            0nat
        }) + words_rec(s.drop_first(), is_ascii_wsp(s[0]))
    }
}

/// The number of words of one line.  The state starts as "in whitespace",
/// so a line beginning with a non-whitespace character opens a word.
pub open spec fn line_words(s: Seq<char>) -> nat {
    words_rec(s, true)
}

/// Total UTF-8 byte length of a sequence of lines (terminators excluded).
pub open spec fn total_bytes(ls: Seq<Seq<char>>) -> nat
    decreases ls.len(),
{
    if ls.len() == 0 {
        0
    } else {
        byte_len(ls[0]) + total_bytes(ls.drop_first())
    }
}

/// Total number of characters of a sequence of lines.
pub open spec fn total_chars(ls: Seq<Seq<char>>) -> nat
    decreases ls.len(),
{
    if ls.len() == 0 {
        0
    } else {
        ls[0].len() + total_chars(ls.drop_first())
    }
}

/// Total number of words of a sequence of lines.  The word-boundary state
/// resets at the start of every line: words never span lines.
pub open spec fn total_words(ls: Seq<Seq<char>>) -> nat
    decreases ls.len(),
{
    if ls.len() == 0 {
        0
    } else {
        line_words(ls[0]) + total_words(ls.drop_first())
    }
}

/// The largest UTF-8 byte length of any line (zero when there is none).
pub open spec fn max_bytes(ls: Seq<Seq<char>>) -> nat
    decreases ls.len(),
{
    if ls.len() == 0 {
        0
    } else {
        let rest = max_bytes(ls.drop_first());
        if byte_len(ls[0]) > rest {
            byte_len(ls[0])
        } else {
            rest
        }
    }
}

/// Occurrences of the byte `b` in a byte sequence.
pub open spec fn count_byte(bs: Seq<u8>, b: u8) -> nat
    decreases bs.len(),
{
    if bs.len() == 0 {
        0
    } else {
        (if bs[0] == b {
            1nat
        } else {
            0nat
        }) + count_byte(bs.drop_first(), b)
    }
}

/// Occurrences of the byte `b` in the UTF-8 encoding of all lines together.
pub open spec fn hist_count(ls: Seq<Seq<char>>, b: u8) -> nat
    decreases ls.len(),
{
    if ls.len() == 0 {
        0
    } else {
        count_byte(encode_utf8(ls[0]), b) + hist_count(ls.drop_first(), b)
    }
}

/// A line has no fewer encoded bytes than characters.
pub proof fn lemma_char_le_byte(s: Seq<char>)
    ensures
        s.len() <= byte_len(s),
    decreases s.len(),
{
    if s.len() > 0 {
        char_is_scalar(s[0]);
        lemma_char_le_byte(s.drop_first());
    }
}

/// A line has no more words than characters.
pub proof fn lemma_words_le_len(s: Seq<char>, prev_wsp: bool)
    ensures
        words_rec(s, prev_wsp) <= s.len(),
    decreases s.len(),
{
    if s.len() > 0 {
        lemma_words_le_len(s.drop_first(), is_ascii_wsp(s[0]));
    }
}

/// A byte occurs no more often than the sequence is long.
pub proof fn lemma_count_byte_le_len(bs: Seq<u8>, b: u8)
    ensures
        count_byte(bs, b) <= bs.len(),
    decreases bs.len(),
{
    if bs.len() > 0 {
        lemma_count_byte_le_len(bs.drop_first(), b);
    }
}

/// Byte occurrences add up over a concatenation.
pub proof fn lemma_count_byte_concat(a: Seq<u8>, c: Seq<u8>, b: u8)
    ensures
        count_byte(a + c, b) == count_byte(a, b) + count_byte(c, b),
    decreases a.len(),
{
    if a.len() == 0 {
        assert(a + c =~= c);
    } else {
        assert((a + c)[0] == a[0]);
        assert((a + c).drop_first() =~= a.drop_first() + c);
        lemma_count_byte_concat(a.drop_first(), c, b);
    }
}

/// A byte absent from a sequence occurs zero times.
pub proof fn lemma_count_byte_none(bs: Seq<u8>, b: u8)
    requires
        forall|j: int| 0 <= j < bs.len() ==> bs[j] != b,
    ensures
        count_byte(bs, b) == 0,
    decreases bs.len(),
{
    if bs.len() > 0 {
        assert forall|j: int| 0 <= j < bs.drop_first().len() implies bs.drop_first()[j] != b by {
            assert(bs.drop_first()[j] == bs[j + 1]);
        }
        lemma_count_byte_none(bs.drop_first(), b);
    }
}

/// In the encoding of one character, a byte below 128 occurs once when the
/// character is that ASCII character, and never otherwise: every byte of a
/// multi-byte encoding is 128 or above.
pub proof fn lemma_count_byte_scalar(c: char, b: u8)
    requires
        b < 128,
    ensures
        count_byte(encode_scalar(c as u32), b) == if c as u32 == b as u32 {
            1nat
        } else {
            0nat
        },
{
    char_is_scalar(c);
    let u = c as u32;
    if has_width_1_encoding(u) {
        let s = encode_scalar(u);
        assert(s =~= seq![(u & 0x7F) as u8]);
        assert(s.drop_first() =~= Seq::<u8>::empty());
        assert(((u & 0x7F) as u8 == b) == (u == b as u32)) by (bit_vector)
            requires
                u < 0x80 && b < 128,
        ;
        assert(count_byte(s.drop_first(), b) == 0);
        assert(count_byte(s, b) == (if s[0] == b {
            1nat
        } else {
            0nat
        }));
        assert(s[0] == (u & 0x7F) as u8);
    } else {
        assert(u != b as u32) by (bit_vector)
            requires
                u >= 0x80 && b < 128,
        ;
        if has_width_2_encoding(u) {
            let s = encode_scalar(u);
            assert(s =~= seq![0xC0 | (((u >> 6) & 0x1F) as u8), 0x80 | ((u & 0x3F) as u8)]);
            assert((0xC0 | (((u >> 6) & 0x1F) as u8)) != b && (0x80 | ((u & 0x3F) as u8)) != b)
                by (bit_vector)
                requires
                    b < 128,
            ;
            lemma_count_byte_none(s, b);
        } else if has_width_3_encoding(u) {
            let s = encode_scalar(u);
            assert(s =~= seq![
                0xE0 | (((u >> 12) & 0x0F) as u8),
                0x80 | (((u >> 6) & 0x3F) as u8),
                0x80 | ((u & 0x3F) as u8),
            ]);
            assert((0xE0 | (((u >> 12) & 0x0F) as u8)) != b && (0x80 | (((u >> 6) & 0x3F) as u8))
                != b && (0x80 | ((u & 0x3F) as u8)) != b) by (bit_vector)
                requires
                    b < 128,
            ;
            lemma_count_byte_none(s, b);
        } else {
            let s = encode_scalar(u);
            assert(s =~= seq![
                0xF0 | (((u >> 18) & 0x7) as u8),
                0x80 | (((u >> 12) & 0x3F) as u8),
                0x80 | (((u >> 6) & 0x3F) as u8),
                0x80 | ((u & 0x3F) as u8),
            ]);
            assert((0xF0 | (((u >> 18) & 0x7) as u8)) != b && (0x80 | (((u >> 12) & 0x3F) as u8))
                != b && (0x80 | (((u >> 6) & 0x3F) as u8)) != b && (0x80 | ((u & 0x3F) as u8)) != b)
                by (bit_vector)
                requires
                    b < 128,
            ;
            lemma_count_byte_none(s, b);
        }
    }
}

/// Total byte length adds up over a concatenation of line sequences.
pub proof fn lemma_total_bytes_concat(a: Seq<Seq<char>>, c: Seq<Seq<char>>)
    ensures
        total_bytes(a + c) == total_bytes(a) + total_bytes(c),
    decreases a.len(),
{
    if a.len() == 0 {
        assert(a + c =~= c);
    } else {
        assert((a + c)[0] == a[0]);
        assert((a + c).drop_first() =~= a.drop_first() + c);
        lemma_total_bytes_concat(a.drop_first(), c);
    }
}

/// Total character count adds up over a concatenation of line sequences.
pub proof fn lemma_total_chars_concat(a: Seq<Seq<char>>, c: Seq<Seq<char>>)
    ensures
        total_chars(a + c) == total_chars(a) + total_chars(c),
    decreases a.len(),
{
    if a.len() == 0 {
        assert(a + c =~= c);
    } else {
        assert((a + c)[0] == a[0]);
        assert((a + c).drop_first() =~= a.drop_first() + c);
        lemma_total_chars_concat(a.drop_first(), c);
    }
}

/// Total word count adds up over a concatenation of line sequences.
pub proof fn lemma_total_words_concat(a: Seq<Seq<char>>, c: Seq<Seq<char>>)
    ensures
        total_words(a + c) == total_words(a) + total_words(c),
    decreases a.len(),
{
    if a.len() == 0 {
        assert(a + c =~= c);
    } else {
        assert((a + c)[0] == a[0]);
        assert((a + c).drop_first() =~= a.drop_first() + c);
        lemma_total_words_concat(a.drop_first(), c);
    }
}

/// The maximum line length of a concatenation is the larger of the two
/// maxima.
pub proof fn lemma_max_bytes_concat(a: Seq<Seq<char>>, c: Seq<Seq<char>>)
    ensures
        max_bytes(a + c) == if max_bytes(a) > max_bytes(c) {
            max_bytes(a)
        } else {
            max_bytes(c)
        },
    decreases a.len(),
{
    if a.len() == 0 {
        assert(a + c =~= c);
    } else {
        assert((a + c)[0] == a[0]);
        assert((a + c).drop_first() =~= a.drop_first() + c);
        lemma_max_bytes_concat(a.drop_first(), c);
    }
}

/// Histogram counts add up over a concatenation of line sequences.
pub proof fn lemma_hist_count_concat(a: Seq<Seq<char>>, c: Seq<Seq<char>>, b: u8)
    ensures
        hist_count(a + c, b) == hist_count(a, b) + hist_count(c, b),
    decreases a.len(),
{
    if a.len() == 0 {
        assert(a + c =~= c);
    } else {
        assert((a + c)[0] == a[0]);
        assert((a + c).drop_first() =~= a.drop_first() + c);
        lemma_hist_count_concat(a.drop_first(), c, b);
    }
}

/// No byte occurs more often than there are bytes in all lines together.
pub proof fn lemma_hist_le_total_bytes(ls: Seq<Seq<char>>, b: u8)
    ensures
        hist_count(ls, b) <= total_bytes(ls),
    decreases ls.len(),
{
    if ls.len() > 0 {
        lemma_count_byte_le_len(encode_utf8(ls[0]), b);
        lemma_hist_le_total_bytes(ls.drop_first(), b);
    }
}

/// A line sequence has no more characters than bytes in total.
pub proof fn lemma_total_chars_le_bytes(ls: Seq<Seq<char>>)
    ensures
        total_chars(ls) <= total_bytes(ls),
    decreases ls.len(),
{
    if ls.len() > 0 {
        lemma_char_le_byte(ls[0]);
        lemma_total_chars_le_bytes(ls.drop_first());
    }
}

/// A line sequence has no more words than characters in total.
pub proof fn lemma_total_words_le_chars(ls: Seq<Seq<char>>)
    ensures
        total_words(ls) <= total_chars(ls),
    decreases ls.len(),
{
    if ls.len() > 0 {
        lemma_words_le_len(ls[0], true);
        lemma_total_words_le_chars(ls.drop_first());
    }
}

/// No line is longer than all lines together.
pub proof fn lemma_max_le_total_bytes(ls: Seq<Seq<char>>)
    ensures
        max_bytes(ls) <= total_bytes(ls),
    decreases ls.len(),
{
    if ls.len() > 0 {
        lemma_max_le_total_bytes(ls.drop_first());
    }
}

/// Removing a trailing carriage return does not lengthen a line's encoding.
pub proof fn lemma_chomp_le(l: Seq<char>)
    ensures
        byte_len(crate::split::chomp_cr(l)) <= byte_len(l),
{
    let c = crate::split::chomp_cr(l);
    if l.len() > 0 && l[l.len() - 1] == '\r' {
        assert(l =~= c.push('\r'));
        crate::text::lemma_encode_utf8_push(c, '\r');
    }
}

/// The lines of a text hold no more bytes than the text, are no more
/// numerous than its bytes, and none is longer than the text.
pub proof fn lemma_split_bounds(s: Seq<char>)
    ensures
        total_bytes(crate::split::split_lines(s)) <= byte_len(s),
        crate::split::split_lines(s).len() <= byte_len(s),
    decreases s.len(),
{
    let ls = crate::split::split_lines(s);
    if s.len() == 0 {
    } else {
        crate::split::lemma_find_nl_bounds(s);
        let i = crate::split::find_nl(s);
        lemma_char_le_byte(s);
        if i == s.len() {
            assert(ls =~= seq![s]);
            assert(ls[0] == s);
            assert(ls.drop_first() =~= Seq::<Seq<char>>::empty());
            assert(total_bytes(Seq::<Seq<char>>::empty()) == 0);
            assert(total_bytes(ls) == byte_len(s));
        } else {
            let head = crate::split::chomp_cr(s.take(i));
            let rest = crate::split::split_lines(s.skip(i + 1));
            assert(ls =~= seq![head] + rest);
            assert(s =~= s.take(i) + seq!['\n'] + s.skip(i + 1));
            lemma_encode_utf8_concat(s.take(i) + seq!['\n'], s.skip(i + 1));
            lemma_encode_utf8_concat(s.take(i), seq!['\n']);
            assert(('\n' as u32) < 0x80);
            assert(seq!['\n'][0] == '\n');
            assert(seq!['\n'].drop_first() =~= Seq::<char>::empty());
            assert(encode_utf8(Seq::<char>::empty()) =~= Seq::<u8>::empty());
            assert(encode_utf8(seq!['\n']) =~= encode_scalar('\n' as u32));
            assert(byte_len(seq!['\n']) == 1);
            assert(byte_len(s) == byte_len(s.take(i)) + 1 + byte_len(s.skip(i + 1)));
            lemma_chomp_le(s.take(i));
            lemma_split_bounds(s.skip(i + 1));
            lemma_total_bytes_concat(seq![head], rest);
            assert(seq![head][0] == head);
            assert(seq![head].drop_first() =~= Seq::<Seq<char>>::empty());
            assert(total_bytes(Seq::<Seq<char>>::empty()) == 0);
            assert(total_bytes(seq![head]) == byte_len(head));
        }
    }
}

/// Counts the characters and the words of one line in one scan.
pub fn count_chars_words(line: &Vec<char>) -> (r: (u64, u64))
    requires
        line@.len() <= u64::MAX,
    ensures
        r.0 as nat == line@.len(),
        r.1 as nat == line_words(line@),
{
    let mut words: u64 = 0;
    let mut prev_wsp: bool = true;
    let mut i: usize = 0;
    proof {
        assert(line@.skip(0) =~= line@);
    }
    while i < line.len()
        invariant
            0 <= i <= line@.len(),
            line@.len() <= u64::MAX,
            words as nat <= i as nat,
            words as nat + words_rec(line@.skip(i as int), prev_wsp) == line_words(line@),
        decreases line@.len() - i,
    {
        let c = line[i];
        proof {
            assert(line@.skip(i as int)[0] == line@[i as int]);
            assert(line@.skip(i as int).drop_first() =~= line@.skip(i as int + 1));
        }
        if prev_wsp && !char_is_ascii_wsp(c) {
            words = words + 1;
        }
        prev_wsp = char_is_ascii_wsp(c);
        i = i + 1;
    }
    proof {
        assert(line@.skip(line@.len() as int) =~= Seq::<char>::empty());
    }
    (line.len() as u64, words)
}

} // verus!
