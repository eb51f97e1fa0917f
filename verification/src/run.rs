//! The scan itself: one pass over the lines feeds the counters and the
//! optional histogram, and the results are rendered as the report.
use vstd::prelude::*;
use vstd::utf8::encode_utf8;
use crate::conf::CmdOptConf;
use crate::conf::ConfV;
use crate::conf::seq_has;
use crate::counts::count_byte;
use crate::counts::hist_count;
use crate::counts::lemma_char_le_byte;
use crate::counts::lemma_count_byte_concat;
use crate::counts::lemma_count_byte_scalar;
use crate::counts::lemma_hist_count_concat;
use crate::counts::lemma_hist_le_total_bytes;
use crate::counts::lemma_max_bytes_concat;
use crate::counts::lemma_max_le_total_bytes;
use crate::counts::lemma_split_bounds;
use crate::counts::lemma_total_bytes_concat;
use crate::counts::lemma_total_chars_concat;
use crate::counts::lemma_total_chars_le_bytes;
use crate::counts::lemma_total_words_concat;
use crate::counts::lemma_total_words_le_chars;
use crate::counts::count_chars_words;
use crate::counts::line_words;
use crate::counts::max_bytes;
use crate::counts::total_bytes;
use crate::counts::total_chars;
use crate::counts::total_words;
use crate::split::split_lines;
use crate::split::split_into_lines;
use crate::text::byte_len;
use crate::text::byte_len_of_chars;
use crate::text::lemma_encode_utf8_push;
use crate::text::str_chars;

verus! {

/// The running counters of one scan.
pub struct Stats {
    pub byte_count: u64,
    pub char_count: u64,
    pub line_count: u64,
    pub word_count: u64,
    pub max_line_bytes: u64,
}

impl Default for Stats {
    /// All counters start at zero.
    fn default() -> (r: Stats)
        ensures
            r.byte_count == 0,
            r.char_count == 0,
            r.line_count == 0,
            r.word_count == 0,
            r.max_line_bytes == 0,
    {
        Stats { byte_count: 0, char_count: 0, line_count: 0, word_count: 0, max_line_bytes: 0 }
    }
}

/// The per-byte histogram of the ASCII range.
pub struct StatsAscii {
    ascii: Vec<u64>,
}

/// The largest value of a sequence of counters (zero when it is empty).
pub open spec fn seq_max_u64(s: Seq<u64>) -> u64
    decreases s.len(),
{
    if s.len() == 0 {
        0
    } else {
        let rest = seq_max_u64(s.drop_first());
        if s[0] > rest {
            s[0]
        } else {
            rest
        }
    }
}

/// The largest value bounds every entry, and is one of them.
pub proof fn lemma_seq_max_bounds(s: Seq<u64>)
    ensures
        forall|i: int| 0 <= i < s.len() ==> #[trigger] s[i] <= seq_max_u64(s),
        s.len() > 0 ==> exists|i: int| 0 <= i < s.len() && s[i] == seq_max_u64(s),
    decreases s.len(),
{
    if s.len() > 0 {
        lemma_seq_max_bounds(s.drop_first());
        let rest = seq_max_u64(s.drop_first());
        assert forall|i: int| 0 <= i < s.len() implies #[trigger] s[i] <= seq_max_u64(s) by {
            if i > 0 {
                assert(s.drop_first()[i - 1] == s[i]);
            }
        }
        if s.len() > 1 && rest >= s[0] {
            let w = choose|i: int|
                0 <= i < s.drop_first().len() && s.drop_first()[i] == rest;
            assert(s[w + 1] == rest);
        }
    }
}

impl StatsAscii {
    /// The bucket contents.
    pub closed spec fn counts(&self) -> Seq<u64> {
        self.ascii@
    }

    /// A histogram of the given size with every bucket at zero.
    pub fn new(sz: usize) -> (r: StatsAscii)
        ensures
            r.counts() =~= Seq::new(sz as nat, |i: int| 0u64),
    {
        let mut v: Vec<u64> = Vec::new();
        let mut i: usize = 0;
        while i < sz
            invariant
                0 <= i <= sz,
                v@.len() == i,
                forall|j: int| 0 <= j < i ==> v@[j] == 0u64,
            decreases sz - i,
        {
            v.push(0);
            i = i + 1;
        }
        StatsAscii { ascii: v }
    }

    /// Counts one byte: a bucket below 128 is incremented, anything above
    /// is ignored.
    pub fn count_up(&mut self, b: u8)
        requires
            b < 128 ==> b < old(self).counts().len() && old(self).counts()[b as int] < u64::MAX,
        ensures
            final(self).counts() == if b < 128 {
                old(self).counts().update(
                    b as int,
                    (old(self).counts()[b as int] + 1) as u64,
                )
            } else {
                old(self).counts()
            },
    {
        if b < 128 {
            let idx = b as usize;
            let v = self.ascii[idx];
            self.ascii[idx] = v + 1;
            proof {
                assert(self.counts() =~= old(self).counts().update(
                    b as int,
                    (old(self).counts()[b as int] + 1) as u64,
                ));
            }
        }
    }

    /// Reads one bucket; an index outside the ASCII range reads zero.
    pub fn get_count(&self, idx: usize) -> (r: u64)
        requires
            idx < 128 ==> idx < self.counts().len(),
        ensures
            r == if idx < 128 {
                self.counts()[idx as int]
            } else {
                0u64
            },
    {
        if idx < 128 {
            self.ascii[idx]
        } else {
            0
        }
    }

    /// The largest bucket value.
    pub fn max(&self) -> (r: u64)
        requires
            self.counts().len() > 0,
        ensures
            r == seq_max_u64(self.counts()),
    {
        let mut m: u64 = self.ascii[0];
        let mut i: usize = 1;
        proof {
            assert(self.counts().take(1).drop_first() =~= Seq::<u64>::empty());
            assert(self.counts().take(1)[0] == self.counts()[0]);
            assert(seq_max_u64(Seq::<u64>::empty()) == 0);
            assert(seq_max_u64(self.counts().take(1)) == self.counts()[0]);
        }
        while i < self.ascii.len()
            invariant
                1 <= i <= self.counts().len(),
                m == seq_max_u64(self.counts().take(i as int)),
            decreases self.counts().len() - i,
        {
            let v = self.ascii[i];
            proof {
                lemma_seq_max_push(self.counts().take(i as int), self.counts()[i as int]);
                assert(self.counts().take(i as int + 1) =~= self.counts().take(i as int).push(
                    self.counts()[i as int],
                ));
            }
            if v > m {
                m = v;
            }
            i = i + 1;
        }
        proof {
            assert(self.counts().take(self.counts().len() as int) =~= self.counts());
        }
        m
    }
}

/// Appending one counter to a sequence updates its maximum in the evident
/// way.
pub proof fn lemma_seq_max_push(s: Seq<u64>, v: u64)
    ensures
        seq_max_u64(s.push(v)) == if v > seq_max_u64(s) {
            v
        } else {
            seq_max_u64(s)
        },
    decreases s.len(),
{
    if s.len() == 0 {
        assert(s.push(v)[0] == v);
        assert(s.push(v).drop_first() =~= Seq::<u64>::empty());
        assert(seq_max_u64(Seq::<u64>::empty()) == 0);
    } else {
        assert(s.push(v)[0] == s[0]);
        assert(s.push(v).drop_first() =~= s.drop_first().push(v));
        lemma_seq_max_push(s.drop_first(), v);
    }
}

impl Default for StatsAscii {
    /// An absent histogram: no buckets at all.
    fn default() -> (r: StatsAscii)
        ensures
            r.counts() =~= Seq::<u64>::empty(),
    {
        StatsAscii { ascii: Vec::new() }
    }
}

/// Feeds one line's encoded bytes into the histogram.
fn hist_line(h: &mut StatsAscii, line: &Vec<char>)
    requires
        old(h).counts().len() == 128,
        forall|b: int|
            0 <= b < 128 ==> #[trigger] old(h).counts()[b] + count_byte(
                encode_utf8(line@),
                b as u8,
            ) <= u64::MAX,
    ensures
        final(h).counts().len() == 128,
        forall|b: int|
            0 <= b < 128 ==> #[trigger] final(h).counts()[b] == old(h).counts()[b] + count_byte(
                encode_utf8(line@),
                b as u8,
            ),
{
    let mut j: usize = 0;
    proof {
        assert(line@.take(0) =~= Seq::<char>::empty());
        assert(encode_utf8(Seq::<char>::empty()) =~= Seq::<u8>::empty());
    }
    while j < line.len()
        invariant
            0 <= j <= line@.len(),
            h.counts().len() == 128,
            forall|b: int|
                0 <= b < 128 ==> #[trigger] old(h).counts()[b] + count_byte(
                    encode_utf8(line@),
                    b as u8,
                ) <= u64::MAX,
            forall|b: int|
                0 <= b < 128 ==> #[trigger] h.counts()[b] == old(h).counts()[b] + count_byte(
                    encode_utf8(line@.take(j as int)),
                    b as u8,
                ),
        decreases line@.len() - j,
    {
        let c = line[j];
        let ghost pre = line@.take(j as int);
        proof {
            assert(line@.take(j as int + 1) =~= pre.push(line@[j as int]));
            lemma_encode_utf8_push(pre, line@[j as int]);
            assert(line@ =~= line@.take(j as int + 1) + line@.skip(j as int + 1));
            crate::text::lemma_encode_utf8_concat(
                line@.take(j as int + 1),
                line@.skip(j as int + 1),
            );
            assert forall|b: int| 0 <= b < 128 implies #[trigger] count_byte(
                encode_utf8(line@.take(j as int + 1)),
                b as u8,
            ) == count_byte(encode_utf8(pre), b as u8) + count_byte(
                encode_utf8(seq![line@[j as int]]),
                b as u8,
            ) && count_byte(encode_utf8(line@.take(j as int + 1)), b as u8) <= count_byte(
                encode_utf8(line@),
                b as u8,
            ) by {
                lemma_count_byte_concat(
                    encode_utf8(pre),
                    vstd::utf8::encode_scalar(line@[j as int] as u32),
                    b as u8,
                );
                assert(seq![line@[j as int]][0] == line@[j as int]);
                assert(seq![line@[j as int]].drop_first() =~= Seq::<char>::empty());
                assert(encode_utf8(Seq::<char>::empty()) =~= Seq::<u8>::empty());
                assert(encode_utf8(seq![line@[j as int]]) =~= vstd::utf8::encode_scalar(
                    line@[j as int] as u32,
                ));
                lemma_count_byte_concat(
                    encode_utf8(line@.take(j as int + 1)),
                    encode_utf8(line@.skip(j as int + 1)),
                    b as u8,
                );
            }
            assert forall|b: int| 0 <= b < 128 implies #[trigger] count_byte(
                encode_utf8(seq![line@[j as int]]),
                b as u8,
            ) == (if line@[j as int] as u32 == b as u32 {
                1nat
            } else {
                0nat
            }) by {
                lemma_count_byte_scalar(line@[j as int], b as u8);
                assert(seq![line@[j as int]][0] == line@[j as int]);
                assert(seq![line@[j as int]].drop_first() =~= Seq::<char>::empty());
                assert(encode_utf8(Seq::<char>::empty()) =~= Seq::<u8>::empty());
                assert(encode_utf8(seq![line@[j as int]]) =~= vstd::utf8::encode_scalar(
                    line@[j as int] as u32,
                ));
            }
        }
        let u = c as u32;
        if u < 128 {
            proof {
                let bi = u as int;
                assert(count_byte(encode_utf8(seq![line@[j as int]]), u as u8) == 1nat);
                assert(count_byte(encode_utf8(line@.take(j as int + 1)), u as u8) <= count_byte(
                    encode_utf8(line@),
                    u as u8,
                ));
                assert(h.counts()[bi] + 1 <= old(h).counts()[bi] + count_byte(
                    encode_utf8(line@),
                    u as u8,
                ));
            }
            h.count_up(u as u8);
        }
        j = j + 1;
    }
    proof {
        assert(line@.take(line@.len() as int) =~= line@);
    }
}

/// Scans the lines once, filling the counters that the configuration asks
/// for, and the histogram when it is asked for.
pub fn scan_lines(conf: &CmdOptConf, lines: &Vec<Vec<char>>) -> (r: (Stats, StatsAscii))
    requires
        total_bytes(lines.deep_view()) <= u64::MAX,
    ensures
        r.0.line_count as nat == lines.deep_view().len(),
        r.0.byte_count as nat == if conf@.bytes {
            total_bytes(lines.deep_view())
        } else {
            0
        },
        r.0.char_count as nat == if conf@.chars || conf@.words {
            total_chars(lines.deep_view())
        } else {
            0
        },
        r.0.word_count as nat == if conf@.chars || conf@.words {
            total_words(lines.deep_view())
        } else {
            0
        },
        r.0.max_line_bytes as nat == if conf@.max {
            max_bytes(lines.deep_view())
        } else {
            0
        },
        conf@.map_ascii ==> r.1.counts().len() == 128 && (forall|b: int|
            0 <= b < 128 ==> #[trigger] r.1.counts()[b] as nat == hist_count(
                lines.deep_view(),
                b as u8,
            )),
        !conf@.map_ascii ==> r.1.counts() =~= Seq::<u64>::empty(),
{
    let ghost ldv = lines.deep_view();
    let mut stats = Stats::default();
    let mut map_ascii = if conf.flg_map_ascii {
        StatsAscii::new(128)
    } else {
        StatsAscii::default()
    };
    let mut k: usize = 0;
    proof {
        assert(ldv.take(0) =~= Seq::<Seq<char>>::empty());
        assert(forall|j: int| 0 <= j < ldv.len() ==> #[trigger] ldv[j] == lines@[j]@);
    }
    while k < lines.len()
        invariant
            0 <= k <= lines@.len(),
            ldv == lines.deep_view(),
            ldv.len() == lines@.len(),
            forall|j: int| 0 <= j < ldv.len() ==> #[trigger] ldv[j] == lines@[j]@,
            total_bytes(ldv) <= u64::MAX,
            stats.line_count as nat == k as nat,
            stats.byte_count as nat == if conf@.bytes {
                total_bytes(ldv.take(k as int))
            } else {
                0
            },
            stats.char_count as nat == if conf@.chars || conf@.words {
                total_chars(ldv.take(k as int))
            } else {
                0
            },
            stats.word_count as nat == if conf@.chars || conf@.words {
                total_words(ldv.take(k as int))
            } else {
                0
            },
            stats.max_line_bytes as nat == if conf@.max {
                max_bytes(ldv.take(k as int))
            } else {
                0
            },
            conf@.map_ascii ==> map_ascii.counts().len() == 128 && (forall|b: int|
                0 <= b < 128 ==> #[trigger] map_ascii.counts()[b] as nat == hist_count(
                    ldv.take(k as int),
                    b as u8,
                )),
            !conf@.map_ascii ==> map_ascii.counts() =~= Seq::<u64>::empty(),
        decreases lines@.len() - k,
    {
        let line = &lines[k];
        let ghost cur = ldv[k as int];
        let ghost pre = ldv.take(k as int);
        proof {
            assert(ldv.take(k as int + 1) =~= pre.push(cur));
            assert(ldv =~= ldv.take(k as int + 1) + ldv.skip(k as int + 1));
            lemma_take_push_totals(pre, cur);
            lemma_total_bytes_concat(ldv.take(k as int + 1), ldv.skip(k as int + 1));
            lemma_total_chars_concat(ldv.take(k as int + 1), ldv.skip(k as int + 1));
            lemma_total_words_concat(ldv.take(k as int + 1), ldv.skip(k as int + 1));
            lemma_max_bytes_concat(ldv.take(k as int + 1), ldv.skip(k as int + 1));
            lemma_total_chars_le_bytes(ldv);
            lemma_total_words_le_chars(ldv);
            lemma_max_le_total_bytes(ldv);
            lemma_char_le_byte(cur);
        }
        stats.line_count = stats.line_count + 1;
        let line_bytes = byte_len_of_chars(line);
        if conf.flg_bytes {
            stats.byte_count = stats.byte_count + line_bytes;
        }
        if conf.flg_max_line_bytes {
            if line_bytes > stats.max_line_bytes {
                stats.max_line_bytes = line_bytes;
            }
        }
        if conf.flg_chars || conf.flg_words {
            let (ch, wd) = count_chars_words(line);
            stats.char_count = stats.char_count + ch;
            stats.word_count = stats.word_count + wd;
        }
        if conf.flg_map_ascii {
            proof {
                lemma_hist_take_bound(ldv, k as int);
            }
            hist_line(&mut map_ascii, line);
            proof {
                assert forall|b: int| 0 <= b < 128 implies #[trigger] map_ascii.counts()[b] as nat
                    == hist_count(ldv.take(k as int + 1), b as u8) by {
                    lemma_hist_count_concat(pre, seq![cur], b as u8);
                    assert(seq![cur][0] == cur);
                    assert(seq![cur].drop_first() =~= Seq::<Seq<char>>::empty());
                    assert(hist_count(Seq::<Seq<char>>::empty(), b as u8) == 0);
                    assert(pre + seq![cur] =~= ldv.take(k as int + 1));
                }
            }
        }
        k = k + 1;
    }
    proof {
        assert(ldv.take(ldv.len() as int) =~= ldv);
    }
    (stats, map_ascii)
}

/// One report entry: the label, a colon, and the rendered value in double
/// quotes.
pub open spec fn pair_text(loc: Option<Seq<char>>, label: Seq<char>, num: u64) -> Seq<char> {
    label + ":\""@ + crate::util::opt_locale_loc::fmt_value(loc, num) + "\""@
}

/// Renders one report entry under the configuration's locale strategy.
pub fn my_formatted(conf: &CmdOptConf, label: &str, num: u64) -> (r: String)
    requires
        conf.wf(),
    ensures
        r@ == pair_text(conf@.locale, label@, num),
{
    let mut s = String::from_str(label);
    s.append(":\"");
    let v = conf.opt_locale.formatted_string(num);
    s.append(v.as_str());
    s.append("\"");
    s
}

/// The report entries of the active toggles, in the fixed order: lines,
/// bytes, chars, words, max.
pub open spec fn report_pairs(c: ConfV, lv: u64, bv: u64, cv: u64, wv: u64, mv: u64) -> Seq<
    Seq<char>,
> {
    (if c.lines {
        seq![pair_text(c.locale, "lines"@, lv)]
    } else {
        Seq::<Seq<char>>::empty()
    }) + (if c.bytes {
        seq![pair_text(c.locale, "bytes"@, bv)]
    } else {
        Seq::<Seq<char>>::empty()
    }) + (if c.chars {
        seq![pair_text(c.locale, "chars"@, cv)]
    } else {
        Seq::<Seq<char>>::empty()
    }) + (if c.words {
        seq![pair_text(c.locale, "words"@, wv)]
    } else {
        Seq::<Seq<char>>::empty()
    }) + (if c.max {
        seq![pair_text(c.locale, "max"@, mv)]
    } else {
        Seq::<Seq<char>>::empty()
    })
}

/// The primary report: the active entries joined by commas, ended by a line
/// feed.
pub open spec fn report_text(c: ConfV, lv: u64, bv: u64, cv: u64, wv: u64, mv: u64) -> Seq<char> {
    crate::text::join_sep(report_pairs(c, lv, bv, cv, wv, mv), ", "@) + "\n"@
}

/// Renders the primary report from the finished counters.
pub fn render_report(conf: &CmdOptConf, stats: &Stats) -> (r: String)
    requires
        conf.wf(),
    ensures
        r@ == report_text(
            conf@,
            stats.line_count,
            stats.byte_count,
            stats.char_count,
            stats.word_count,
            stats.max_line_bytes,
        ),
{
    let ghost c = conf@;
    let ghost p1 = if c.lines {
        seq![pair_text(c.locale, "lines"@, stats.line_count)]
    } else {
        Seq::<Seq<char>>::empty()
    };
    let ghost p2 = if c.bytes {
        seq![pair_text(c.locale, "bytes"@, stats.byte_count)]
    } else {
        Seq::<Seq<char>>::empty()
    };
    let ghost p3 = if c.chars {
        seq![pair_text(c.locale, "chars"@, stats.char_count)]
    } else {
        Seq::<Seq<char>>::empty()
    };
    let ghost p4 = if c.words {
        seq![pair_text(c.locale, "words"@, stats.word_count)]
    } else {
        Seq::<Seq<char>>::empty()
    };
    let ghost p5 = if c.max {
        seq![pair_text(c.locale, "max"@, stats.max_line_bytes)]
    } else {
        Seq::<Seq<char>>::empty()
    };
    let mut parts: Vec<String> = Vec::new();
    proof {
        assert(parts.deep_view() =~~= Seq::<Seq<char>>::empty());
    }
    if conf.flg_lines {
        let ghost d0 = parts.deep_view();
        parts.push(my_formatted(conf, "lines", stats.line_count));
        proof {
            assert(parts.deep_view() =~~= d0.push(pair_text(c.locale, "lines"@, stats.line_count)));
        }
    }
    proof {
        assert(parts.deep_view() =~~= p1);
    }
    if conf.flg_bytes {
        let ghost d0 = parts.deep_view();
        parts.push(my_formatted(conf, "bytes", stats.byte_count));
        proof {
            assert(parts.deep_view() =~~= d0.push(pair_text(c.locale, "bytes"@, stats.byte_count)));
        }
    }
    proof {
        assert(parts.deep_view() =~~= p1 + p2);
    }
    if conf.flg_chars {
        let ghost d0 = parts.deep_view();
        parts.push(my_formatted(conf, "chars", stats.char_count));
        proof {
            assert(parts.deep_view() =~~= d0.push(pair_text(c.locale, "chars"@, stats.char_count)));
        }
    }
    proof {
        assert(parts.deep_view() =~~= p1 + p2 + p3);
    }
    if conf.flg_words {
        let ghost d0 = parts.deep_view();
        parts.push(my_formatted(conf, "words", stats.word_count));
        proof {
            assert(parts.deep_view() =~~= d0.push(pair_text(c.locale, "words"@, stats.word_count)));
        }
    }
    proof {
        assert(parts.deep_view() =~~= p1 + p2 + p3 + p4);
    }
    if conf.flg_max_line_bytes {
        let ghost d0 = parts.deep_view();
        parts.push(my_formatted(conf, "max", stats.max_line_bytes));
        proof {
            assert(parts.deep_view() =~~= d0.push(
                pair_text(c.locale, "max"@, stats.max_line_bytes),
            ));
        }
    }
    proof {
        assert(parts.deep_view() =~~= p1 + p2 + p3 + p4 + p5);
        assert(parts.deep_view() =~~= report_pairs(
            c,
            stats.line_count,
            stats.byte_count,
            stats.char_count,
            stats.word_count,
            stats.max_line_bytes,
        ));
    }
    let mut out = crate::text::join_strings(&parts, ", ");
    out.append("\n");
    out
}

/// One compact-mode bucket, normalized to the range 0 to 255 against the
/// largest bucket; all zeros when every bucket is zero.
pub open spec fn scaled_bucket(counts: Seq<u64>, i: int) -> nat {
    if seq_max_u64(counts) == 0 {
        0
    } else {
        ((counts[i] as nat) * 255) / (seq_max_u64(counts) as nat)
    }
}

/// The 128 normalized bucket values in decimal notation.
pub open spec fn compact_parts(counts: Seq<u64>) -> Seq<Seq<char>> {
    Seq::new(128, |i: int| crate::numstr::dec_digits(scaled_bucket(counts, i)))
}

/// The compact histogram block: one line in the shape of an array literal.
pub open spec fn compact_text(counts: Seq<u64>) -> Seq<char> {
    "const ASCII_STOCHAS: [u8;128] = ["@ + crate::text::join_sep(compact_parts(counts), ", "@)
        + "];\n"@
}

/// Renders the histogram in its compact array form.
pub fn render_map_compact(h: &StatsAscii) -> (r: String)
    requires
        h.counts().len() == 128,
    ensures
        r@ == compact_text(h.counts()),
{
    let ghost counts = h.counts();
    let maxv = h.max();
    proof {
        lemma_seq_max_bounds(counts);
    }
    let mut parts: Vec<String> = Vec::new();
    let mut i: usize = 0;
    while i < 128
        invariant
            0 <= i <= 128,
            counts == h.counts(),
            counts.len() == 128,
            maxv == seq_max_u64(counts),
            forall|b: int| 0 <= b < counts.len() ==> #[trigger] counts[b] <= maxv,
            parts.deep_view().len() == i,
            forall|j: int|
                0 <= j < i ==> #[trigger] parts.deep_view()[j] == crate::numstr::dec_digits(
                    scaled_bucket(counts, j),
                ),
        decreases 128 - i,
    {
        let val = h.get_count(i);
        let sc: u64 = if maxv == 0 {
            0
        } else {
            proof {
                assert((val as int) * 255 / (maxv as int) <= 255) by (nonlinear_arith)
                    requires
                        0 <= val <= maxv,
                        maxv >= 1,
                ;
            }
            (((val as u128) * 255) / (maxv as u128)) as u64
        };
        proof {
            assert(sc as nat == scaled_bucket(counts, i as int));
        }
        let ghost d0 = parts.deep_view();
        parts.push(crate::numstr::u64_to_string(sc));
        proof {
            assert(parts.deep_view() =~~= d0.push(
                crate::numstr::dec_digits(scaled_bucket(counts, i as int)),
            ));
        }
        i = i + 1;
    }
    proof {
        assert(parts.deep_view() =~= compact_parts(counts));
    }
    let mut out = String::from_str("const ASCII_STOCHAS: [u8;128] = [");
    let j = crate::text::join_strings(&parts, ", ");
    out.append(j.as_str());
    out.append("];\n");
    out
}

/// The control-character total of the human-readable block: every bucket
/// from the given index up to 0x1F, leaving out horizontal and vertical
/// tab.
pub open spec fn sum_ctrl_counts(counts: Seq<u64>, i: int) -> nat
    decreases 32 - i,
{
    if i < 0 || i >= 32 {
        0
    } else {
        (if i == 9 || i == 11 {
            0nat
        } else {
            counts[i] as nat
        }) + sum_ctrl_counts(counts, i + 1)
    }
}

/// The whole control bucket: the control range except the tabs, plus
/// delete (0x7F).
pub open spec fn ctrl_total(counts: Seq<u64>) -> nat {
    sum_ctrl_counts(counts, 0) + (counts[127] as nat)
}

/// One line of the human-readable block for a printable byte: its hex
/// code, its glyph, and its count.
pub open spec fn printable_line(counts: Seq<u64>, b: int) -> Seq<char> {
    "0x"@ + crate::numstr::hex2_digits(b as nat) + ":  "@ + seq![(b as u8) as char] + ": "@
        + crate::numstr::dec_digits(counts[b] as nat)
}

/// The lines of the human-readable block, in order: the control summary,
/// the tabs, the space, then every printable byte ascending.
pub open spec fn human_parts(counts: Seq<u64>) -> Seq<Seq<char>> {
    seq![
        "ctrl: --: "@ + crate::numstr::dec_digits(ctrl_total(counts)),
        "ctrl: ht: "@ + crate::numstr::dec_digits(counts[9] as nat),
        "ctrl: vt: "@ + crate::numstr::dec_digits(counts[11] as nat),
        "0x20: SP: "@ + crate::numstr::dec_digits(counts[32] as nat),
    ] + Seq::new(94, |i: int| printable_line(counts, 0x21 + i))
}

/// The human-readable histogram block.
pub open spec fn human_text(counts: Seq<u64>) -> Seq<char> {
    crate::text::join_sep(human_parts(counts), "\n"@) + "\n"@
}

/// Renders the histogram in its human-readable form.
pub fn render_map_human(h: &StatsAscii) -> (r: String)
    requires
        h.counts().len() == 128,
    ensures
        r@ == human_text(h.counts()),
{
    let ghost counts = h.counts();
    let mut ctrl: u128 = 0;
    let mut i: usize = 0;
    while i < 32
        invariant
            0 <= i <= 32,
            counts == h.counts(),
            counts.len() == 128,
            ctrl <= (i as u128) * 0xFFFF_FFFF_FFFF_FFFF,
            ctrl as nat + sum_ctrl_counts(counts, i as int) == sum_ctrl_counts(counts, 0),
        decreases 32 - i,
    {
        if i != 9 && i != 11 {
            let v = h.get_count(i);
            ctrl = ctrl + v as u128;
        }
        i = i + 1;
    }
    let ctrl_all: u128 = ctrl + h.get_count(127) as u128;
    proof {
        assert(ctrl_all as nat == ctrl_total(counts));
    }
    let mut parts: Vec<String> = Vec::new();
    let mut t = String::from_str("ctrl: --: ");
    crate::numstr::append_u128(&mut t, ctrl_all);
    parts.push(t);
    let mut t = String::from_str("ctrl: ht: ");
    crate::numstr::append_u64(&mut t, h.get_count(9));
    parts.push(t);
    let mut t = String::from_str("ctrl: vt: ");
    crate::numstr::append_u64(&mut t, h.get_count(11));
    parts.push(t);
    let mut t = String::from_str("0x20: SP: ");
    crate::numstr::append_u64(&mut t, h.get_count(32));
    parts.push(t);
    let ghost first4 = seq![
        "ctrl: --: "@ + crate::numstr::dec_digits(ctrl_total(counts)),
        "ctrl: ht: "@ + crate::numstr::dec_digits(counts[9] as nat),
        "ctrl: vt: "@ + crate::numstr::dec_digits(counts[11] as nat),
        "0x20: SP: "@ + crate::numstr::dec_digits(counts[32] as nat),
    ];
    proof {
        assert(parts.deep_view() =~~= first4);
    }
    let mut b: usize = 0x21;
    while b < 0x7F
        invariant
            0x21 <= b <= 0x7F,
            counts == h.counts(),
            counts.len() == 128,
            parts.deep_view().len() == 4 + (b - 0x21),
            parts.deep_view() =~= first4 + Seq::new(
                (b - 0x21) as nat,
                |k: int| printable_line(counts, 0x21 + k),
            ),
        decreases 0x7F - b,
    {
        let mut t = String::from_str("0x");
        crate::numstr::append_hex2(&mut t, b as u64);
        t.append(":  ");
        crate::numstr::push_char(&mut t, (b as u8) as char);
        t.append(": ");
        crate::numstr::append_u64(&mut t, h.get_count(b));
        proof {
            assert(t@ =~= printable_line(counts, b as int));
        }
        let ghost d0 = parts.deep_view();
        parts.push(t);
        proof {
            assert(parts.deep_view() =~~= d0.push(printable_line(counts, b as int)));
            assert(parts.deep_view() =~= first4 + Seq::new(
                (b + 1 - 0x21) as nat,
                |k: int| printable_line(counts, 0x21 + k),
            ));
        }
        b = b + 1;
    }
    proof {
        assert(parts.deep_view() =~= human_parts(counts));
    }
    let mut out = crate::text::join_strings(&parts, "\n");
    out.append("\n");
    out
}

/// The histogram's bucket contents as counters.
pub open spec fn hist_counts_of(ls: Seq<Seq<char>>) -> Seq<u64> {
    Seq::new(128, |b: int| hist_count(ls, b as u8) as u64)
}

/// The whole output of one run: the primary report over the input's lines,
/// then, when the histogram is asked for, its block in the selected form.
pub open spec fn run_text(c: ConfV, input: Seq<char>) -> Seq<char> {
    let ls = split_lines(input);
    report_text(
        c,
        ls.len() as u64,
        total_bytes(ls) as u64,
        total_chars(ls) as u64,
        total_words(ls) as u64,
        max_bytes(ls) as u64,
    ) + (if c.map_ascii {
        if seq_has(c.x_params, "map-ascii-rust-src"@) {
            compact_text(hist_counts_of(ls))
        } else {
            human_text(hist_counts_of(ls))
        }
    } else {
        Seq::<char>::empty()
    })
}

/// One run: splits the input into lines, scans them once, and renders the
/// report and the optional histogram block.
pub fn run(conf: &CmdOptConf, input: &str) -> (r: String)
    requires
        conf.wf(),
        byte_len(input@) <= u64::MAX,
    ensures
        r@ == run_text(conf@, input@),
{
    let ghost ls = split_lines(input@);
    let chars = str_chars(input);
    let lines = split_into_lines(&chars);
    proof {
        lemma_split_bounds(input@);
    }
    let (stats, map_ascii) = scan_lines(conf, &lines);
    proof {
        lemma_total_chars_le_bytes(ls);
        lemma_total_words_le_chars(ls);
        lemma_max_le_total_bytes(ls);
        assert(report_pairs(
            conf@,
            stats.line_count,
            stats.byte_count,
            stats.char_count,
            stats.word_count,
            stats.max_line_bytes,
        ) =~~= report_pairs(
            conf@,
            ls.len() as u64,
            total_bytes(ls) as u64,
            total_chars(ls) as u64,
            total_words(ls) as u64,
            max_bytes(ls) as u64,
        ));
    }
    let mut out = render_report(conf, &stats);
    if conf.flg_map_ascii {
        proof {
            assert forall|b: int| 0 <= b < 128 implies #[trigger] map_ascii.counts()[b]
                == hist_counts_of(ls)[b] by {
                lemma_hist_le_total_bytes(ls, b as u8);
            }
            assert(map_ascii.counts() =~= hist_counts_of(ls));
        }
        let block = if conf.is_opt_uc_x_map_ascii_rust_src() {
            render_map_compact(&map_ascii)
        } else {
            render_map_human(&map_ascii)
        };
        out.append(block.as_str());
    } else {
        proof {
            assert(out@ + Seq::<char>::empty() =~= out@);
        }
    }
    out
}

/// Totals over a one-longer prefix grow by the last line's own counts.
proof fn lemma_take_push_totals(pre: Seq<Seq<char>>, cur: Seq<char>)
    ensures
        total_bytes(pre.push(cur)) == total_bytes(pre) + byte_len(cur),
        total_chars(pre.push(cur)) == total_chars(pre) + cur.len(),
        total_words(pre.push(cur)) == total_words(pre) + line_words(cur),
        max_bytes(pre.push(cur)) == if byte_len(cur) > max_bytes(pre) {
            byte_len(cur)
        } else {
            max_bytes(pre)
        },
{
    assert(pre.push(cur) =~= pre + seq![cur]);
    assert(seq![cur][0] == cur);
    assert(seq![cur].drop_first() =~= Seq::<Seq<char>>::empty());
    assert(total_bytes(Seq::<Seq<char>>::empty()) == 0);
    assert(total_chars(Seq::<Seq<char>>::empty()) == 0);
    assert(total_words(Seq::<Seq<char>>::empty()) == 0);
    assert(max_bytes(Seq::<Seq<char>>::empty()) == 0);
    lemma_total_bytes_concat(pre, seq![cur]);
    lemma_total_chars_concat(pre, seq![cur]);
    lemma_total_words_concat(pre, seq![cur]);
    lemma_max_bytes_concat(pre, seq![cur]);
}

/// Histogram counts of a prefix, plus the next line's, stay within the
/// whole's, which the total byte count bounds.
proof fn lemma_hist_take_bound(ldv: Seq<Seq<char>>, k: int)
    requires
        0 <= k < ldv.len(),
    ensures
        forall|b: int|
            0 <= b < 128 ==> #[trigger] hist_count(ldv.take(k), b as u8) + count_byte(
                encode_utf8(ldv[k]),
                b as u8,
            ) <= total_bytes(ldv),
{
    assert forall|b: int| 0 <= b < 128 implies #[trigger] hist_count(ldv.take(k), b as u8)
        + count_byte(encode_utf8(ldv[k]), b as u8) <= total_bytes(ldv) by {
        let pre = ldv.take(k);
        assert(ldv.take(k + 1) =~= pre + seq![ldv[k]]);
        lemma_hist_count_concat(pre, seq![ldv[k]], b as u8);
        assert(seq![ldv[k]][0] == ldv[k]);
        assert(seq![ldv[k]].drop_first() =~= Seq::<Seq<char>>::empty());
        assert(hist_count(Seq::<Seq<char>>::empty(), b as u8) == 0);
        assert(ldv =~= ldv.take(k + 1) + ldv.skip(k + 1));
        lemma_hist_count_concat(ldv.take(k + 1), ldv.skip(k + 1), b as u8);
        lemma_hist_le_total_bytes(ldv, b as u8);
        lemma_hist_le_total_bytes(ldv.skip(k + 1), b as u8);
        lemma_total_bytes_concat(ldv.take(k + 1), ldv.skip(k + 1));
        lemma_hist_le_total_bytes(ldv.take(k + 1), b as u8);
    }
}

} // verus!
