//! Laws of the scan, stated and proved over the same spec functions that
//! the executable functions' contracts use.
use vstd::prelude::*;
use vstd::utf8::is_ascii_chars;
use vstd::utf8::is_ascii_chars_encode_utf8;
use crate::conf::ConfV;
use crate::counts::line_words;
use crate::counts::total_bytes;
use crate::counts::total_chars;
use crate::counts::words_rec;
use crate::run::run_text;
use crate::run::scaled_bucket;
use crate::run::compact_parts;
use crate::run::seq_max_u64;
use crate::run::lemma_seq_max_bounds;
use crate::split::chomp_cr;
use crate::split::find_nl;
use crate::split::lemma_find_nl_bounds;
use crate::split::split_lines;
use crate::text::is_ascii_wsp;

verus! {

/// The number of line feeds in a text.
pub open spec fn count_nl(s: Seq<char>) -> nat
    decreases s.len(),
{
    if s.len() == 0 {
        0
    } else {
        (if s[0] == '\n' {
            1nat
        } else {
            0nat
        }) + count_nl(s.drop_first())
    }
}

/// Line feeds add up over a concatenation.
proof fn lemma_count_nl_concat(a: Seq<char>, b: Seq<char>)
    ensures
        count_nl(a + b) == count_nl(a) + count_nl(b),
    decreases a.len(),
{
    if a.len() == 0 {
        assert(a + b =~= b);
    } else {
        assert((a + b)[0] == a[0]);
        assert((a + b).drop_first() =~= a.drop_first() + b);
        lemma_count_nl_concat(a.drop_first(), b);
    }
}

/// A text without a line feed has none to count.
proof fn lemma_count_nl_none(s: Seq<char>)
    requires
        forall|j: int| 0 <= j < s.len() ==> s[j] != '\n',
    ensures
        count_nl(s) == 0,
    decreases s.len(),
{
    if s.len() > 0 {
        assert forall|j: int| 0 <= j < s.drop_first().len() implies s.drop_first()[j] != '\n' by {
            assert(s.drop_first()[j] == s[j + 1]);
        }
        lemma_count_nl_none(s.drop_first());
    }
}

/// The number of lines equals the number of line terminators, plus one when
/// the text ends with unterminated content.
pub proof fn lemma_line_count(s: Seq<char>)
    ensures
        split_lines(s).len() == count_nl(s) + (if s.len() > 0 && s[s.len() - 1] != '\n' {
            1nat
        } else {
            0nat
        }),
    decreases s.len(),
{
    if s.len() == 0 {
    } else {
        lemma_find_nl_bounds(s);
        let i = find_nl(s);
        if i == s.len() {
            lemma_count_nl_none(s);
            assert(s[s.len() - 1] != '\n');
        } else {
            let pre = s.take(i);
            let rest = s.skip(i + 1);
            assert(s =~= pre + seq!['\n'] + rest);
            lemma_count_nl_concat(pre + seq!['\n'], rest);
            lemma_count_nl_concat(pre, seq!['\n']);
            assert(seq!['\n'][0] == '\n');
            assert(seq!['\n'].drop_first() =~= Seq::<char>::empty());
            assert(count_nl(Seq::<char>::empty()) == 0);
            assert(count_nl(seq!['\n']) == 1);
            assert forall|j: int| 0 <= j < pre.len() implies pre[j] != '\n' by {
                assert(pre[j] == s[j]);
            }
            lemma_count_nl_none(pre);
            lemma_line_count(rest);
            assert(split_lines(s) =~= seq![chomp_cr(pre)] + split_lines(rest));
            if rest.len() > 0 {
                assert(s[s.len() - 1] == rest[rest.len() - 1]);
            } else {
                assert(s[s.len() - 1] == '\n');
            }
        }
    }
}

/// The lines of an all-ASCII text are all ASCII.
proof fn lemma_split_lines_ascii(s: Seq<char>)
    requires
        is_ascii_chars(s),
    ensures
        forall|k: int|
            0 <= k < split_lines(s).len() ==> is_ascii_chars(#[trigger] split_lines(s)[k]),
    decreases s.len(),
{
    if s.len() == 0 {
    } else {
        lemma_find_nl_bounds(s);
        let i = find_nl(s);
        if i == s.len() {
            assert(split_lines(s) =~= seq![s]);
        } else {
            let pre = s.take(i);
            let rest = s.skip(i + 1);
            let head = chomp_cr(pre);
            assert(is_ascii_chars(pre)) by {
                assert(forall|j: int| 0 <= j < pre.len() ==> #[trigger] pre[j] == s[j]);
            }
            assert(is_ascii_chars(head)) by {
                assert(forall|j: int| 0 <= j < head.len() ==> #[trigger] head[j] == pre[j]);
            }
            assert(is_ascii_chars(rest)) by {
                assert(forall|j: int| 0 <= j < rest.len() ==> #[trigger] rest[j] == s[j + i + 1]);
            }
            lemma_split_lines_ascii(rest);
            assert(split_lines(s) =~= seq![head] + split_lines(rest));
            assert forall|k: int| 0 <= k < split_lines(s).len() implies is_ascii_chars(
                #[trigger] split_lines(s)[k],
            ) by {
                if k > 0 {
                    assert(split_lines(s)[k] == split_lines(rest)[k - 1]);
                }
            }
        }
    }
}

/// Over all-ASCII lines, the byte total and the character total agree.
proof fn lemma_totals_eq_ascii(ls: Seq<Seq<char>>)
    requires
        forall|k: int| 0 <= k < ls.len() ==> is_ascii_chars(#[trigger] ls[k]),
    ensures
        total_bytes(ls) == total_chars(ls),
    decreases ls.len(),
{
    if ls.len() > 0 {
        is_ascii_chars_encode_utf8(ls[0]);
        assert(forall|k: int|
            0 <= k < ls.drop_first().len() ==> #[trigger] ls.drop_first()[k] == ls[k + 1]);
        lemma_totals_eq_ascii(ls.drop_first());
    }
}

/// For an all-ASCII input, the byte count equals the character count: each
/// character is one byte.
pub proof fn lemma_ascii_bytes_eq_chars(s: Seq<char>)
    requires
        is_ascii_chars(s),
    ensures
        total_bytes(split_lines(s)) == total_chars(split_lines(s)),
{
    lemma_split_lines_ascii(s);
    lemma_totals_eq_ascii(split_lines(s));
}

/// A text of nothing but ASCII whitespace holds no words, whatever preceded
/// it.
proof fn lemma_words_all_ws(q: Seq<char>, prev: bool)
    requires
        forall|j: int| 0 <= j < q.len() ==> is_ascii_wsp(#[trigger] q[j]),
    ensures
        words_rec(q, prev) == 0,
    decreases q.len(),
{
    if q.len() > 0 {
        assert(forall|j: int|
            0 <= j < q.drop_first().len() ==> #[trigger] q.drop_first()[j] == q[j + 1]);
        lemma_words_all_ws(q.drop_first(), is_ascii_wsp(q[0]));
    }
}

/// Leading ASCII whitespace never opens a word: the state already stands in
/// whitespace at the start of a line.
proof fn lemma_words_leading_ws(p: Seq<char>, s: Seq<char>)
    requires
        forall|j: int| 0 <= j < p.len() ==> is_ascii_wsp(#[trigger] p[j]),
    ensures
        words_rec(p + s, true) == words_rec(s, true),
    decreases p.len(),
{
    if p.len() == 0 {
        assert(p + s =~= s);
    } else {
        assert((p + s)[0] == p[0]);
        assert((p + s).drop_first() =~= p.drop_first() + s);
        assert(forall|j: int|
            0 <= j < p.drop_first().len() ==> #[trigger] p.drop_first()[j] == p[j + 1]);
        lemma_words_leading_ws(p.drop_first(), s);
    }
}

/// Trailing ASCII whitespace closes no word and opens none.
proof fn lemma_words_trailing_ws(s: Seq<char>, q: Seq<char>, prev: bool)
    requires
        forall|j: int| 0 <= j < q.len() ==> is_ascii_wsp(#[trigger] q[j]),
    ensures
        words_rec(s + q, prev) == words_rec(s, prev),
    decreases s.len(),
{
    if s.len() == 0 {
        assert(s + q =~= q);
        lemma_words_all_ws(q, prev);
    } else {
        assert((s + q)[0] == s[0]);
        assert((s + q).drop_first() =~= s.drop_first() + q);
        lemma_words_trailing_ws(s.drop_first(), q, is_ascii_wsp(s[0]));
    }
}

/// The word count of a line does not change when ASCII whitespace is added
/// before or after it.
pub proof fn lemma_words_padding(p: Seq<char>, s: Seq<char>, q: Seq<char>)
    requires
        forall|j: int| 0 <= j < p.len() ==> is_ascii_wsp(#[trigger] p[j]),
        forall|j: int| 0 <= j < q.len() ==> is_ascii_wsp(#[trigger] q[j]),
    ensures
        line_words(p + s + q) == line_words(s),
{
    assert(p + s + q =~= p + (s + q));
    lemma_words_leading_ws(p, s + q);
    lemma_words_trailing_ws(s, q, true);
}

/// A line with every run of consecutive ASCII whitespace characters
/// replaced by a single space; `prev_wsp` tells whether a run is already
/// open.
pub open spec fn collapse_ws_rec(s: Seq<char>, prev_wsp: bool) -> Seq<char>
    decreases s.len(),
{
    if s.len() == 0 {
        Seq::empty()
    } else {
        let c = s[0];
        if is_ascii_wsp(c) {
            if prev_wsp {
                collapse_ws_rec(s.drop_first(), true)
            } else {
                seq![' '] + collapse_ws_rec(s.drop_first(), true)
            }
        } else {
            seq![c] + collapse_ws_rec(s.drop_first(), false)
        }
    }
}

/// A line with each whitespace run collapsed to one space.
pub open spec fn collapse_ws(s: Seq<char>) -> Seq<char> {
    collapse_ws_rec(s, false)
}

/// Collapsing whitespace runs preserves the word count, for any agreeing
/// starting state.
proof fn lemma_words_collapse_rec(s: Seq<char>, b: bool)
    ensures
        words_rec(collapse_ws_rec(s, !b), !b) == words_rec(s, !b),
    decreases s.len(),
{
    if s.len() == 0 {
    } else {
        let c = s[0];
        let rest = s.drop_first();
        if is_ascii_wsp(c) {
            if !b {
                lemma_words_collapse_rec(rest, false);
            } else {
                lemma_words_collapse_rec(rest, false);
                let t = seq![' '] + collapse_ws_rec(rest, true);
                assert(t[0] == ' ');
                assert(t.drop_first() =~= collapse_ws_rec(rest, true));
            }
        } else {
            lemma_words_collapse_rec(rest, true);
            let t = seq![c] + collapse_ws_rec(rest, false);
            assert(t[0] == c);
            assert(t.drop_first() =~= collapse_ws_rec(rest, false));
        }
    }
}

/// The word count of a line is unchanged by collapsing each run of
/// consecutive ASCII whitespace to a single space.
pub proof fn lemma_words_collapse(s: Seq<char>)
    ensures
        line_words(collapse_ws(s)) == line_words(s),
{
    lemma_words_collapse_rec(s, false);
    let t = collapse_ws(s);
    if s.len() == 0 {
    } else {
        let c = s[0];
        let rest = s.drop_first();
        if is_ascii_wsp(c) {
            let u = seq![' '] + collapse_ws_rec(rest, true);
            assert(t =~= u);
            assert(u[0] == ' ');
            assert(u.drop_first() =~= collapse_ws_rec(rest, true));
            lemma_words_collapse_rec(rest, false);
        } else {
            let u = seq![c] + collapse_ws_rec(rest, false);
            assert(t =~= u);
            assert(u[0] == c);
            assert(u.drop_first() =~= collapse_ws_rec(rest, false));
            lemma_words_collapse_rec(rest, true);
        }
    }
}

/// The compact histogram block holds exactly 128 values, each between 0 and
/// 255; the largest bucket maps to 255 unless every bucket is zero, in
/// which case every value is zero.
pub proof fn lemma_compact_bounds(counts: Seq<u64>)
    requires
        counts.len() == 128,
    ensures
        compact_parts(counts).len() == 128,
        forall|i: int| 0 <= i < 128 ==> #[trigger] scaled_bucket(counts, i) <= 255,
        seq_max_u64(counts) > 0 ==> exists|i: int|
            0 <= i < 128 && #[trigger] scaled_bucket(counts, i) == 255,
        seq_max_u64(counts) == 0 ==> forall|i: int|
            0 <= i < 128 ==> #[trigger] scaled_bucket(counts, i) == 0,
{
    let m = seq_max_u64(counts);
    lemma_seq_max_bounds(counts);
    assert forall|i: int| 0 <= i < 128 implies #[trigger] scaled_bucket(counts, i) <= 255 by {
        if m > 0 {
            assert((counts[i] as int) * 255 / (m as int) <= 255) by (nonlinear_arith)
                requires
                    0 <= counts[i] <= m,
                    m >= 1,
            ;
        }
    }
    if m > 0 {
        let w = choose|i: int| 0 <= i < counts.len() && counts[i] == m;
        assert((m as int) * 255 / (m as int) == 255) by (nonlinear_arith)
            requires
                m >= 1,
        ;
        assert(scaled_bucket(counts, w) == 255);
    }
}

/// Running the scan twice on the same input with the same configuration
/// yields the same output: the whole run is a function of the configuration
/// and the input text.
pub proof fn lemma_run_deterministic(c: ConfV, input: Seq<char>, r1: Seq<char>, r2: Seq<char>)
    requires
        r1 == run_text(c, input),
        r2 == run_text(c, input),
    ensures
        r1 == r2,
{
}

} // verus!
