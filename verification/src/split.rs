//! The line source: turns a decoded text into its sequence of lines.
//!
//! A line is a maximal run of characters between line feeds (or between a
//! line feed and the end of the text).  The terminating line feed is removed,
//! and a carriage return immediately before it is removed with it.  A final
//! unterminated run is a line of its own, kept as it stands.
use vstd::prelude::*;

verus! {

/// Index of the first line feed in `s`, or `s.len()` if there is none.
pub open spec fn find_nl(s: Seq<char>) -> int
    decreases s.len(),
{
    if s.len() == 0 {
        0
    } else if s[0] == '\n' {
        0
    } else {
        1 + find_nl(s.drop_first())
    }
}

/// A trailing carriage return is removed from a terminated line.
pub open spec fn chomp_cr(l: Seq<char>) -> Seq<char> {
    if l.len() > 0 && l[l.len() - 1] == '\r' {
        l.drop_last()
    } else {
        l
    }
}

/// The sequence of lines of a text, with terminators removed.
pub open spec fn split_lines(s: Seq<char>) -> Seq<Seq<char>>
    decreases s.len(),
    via split_lines_decreases
{
    if s.len() == 0 {
        Seq::empty()
    } else {
        let i = find_nl(s);
        if i == s.len() {
            seq![s]
        } else {
            seq![chomp_cr(s.take(i))] + split_lines(s.skip(i + 1))
        }
    }
}

#[via_fn]
proof fn split_lines_decreases(s: Seq<char>) {
    lemma_find_nl_bounds(s);
}

/// `find_nl` stays within bounds, finds a line feed, and nothing before it
/// is one.
pub proof fn lemma_find_nl_bounds(s: Seq<char>)
    ensures
        0 <= find_nl(s) <= s.len(),
        find_nl(s) < s.len() ==> s[find_nl(s)] == '\n',
        forall|j: int| 0 <= j < find_nl(s) ==> s[j] != '\n',
    decreases s.len(),
{
    if s.len() == 0 {
    } else if s[0] == '\n' {
    } else {
        lemma_find_nl_bounds(s.drop_first());
        assert forall|j: int| 0 <= j < find_nl(s) implies s[j] != '\n' by {
            if j > 0 {
                assert(s.drop_first()[j - 1] == s[j]);
            }
        }
    }
}

/// In a text with no line feed, `find_nl` runs to the end.
pub proof fn lemma_find_nl_none(s: Seq<char>)
    requires
        forall|j: int| 0 <= j < s.len() ==> s[j] != '\n',
    ensures
        find_nl(s) == s.len(),
    decreases s.len(),
{
    if s.len() == 0 {
    } else {
        assert forall|j: int| 0 <= j < s.drop_first().len() implies s.drop_first()[j] != '\n' by {
            assert(s.drop_first()[j] == s[j + 1]);
        }
        lemma_find_nl_none(s.drop_first());
    }
}

/// A text without a line feed is one line (or none, when it is empty).
pub proof fn lemma_split_no_nl(s: Seq<char>)
    requires
        forall|j: int| 0 <= j < s.len() ==> s[j] != '\n',
    ensures
        s.len() == 0 ==> split_lines(s) == Seq::<Seq<char>>::empty(),
        s.len() > 0 ==> split_lines(s) == seq![s],
{
    lemma_find_nl_none(s);
}

/// Splitting at the first line feed: the part before it is the first line
/// (with a trailing carriage return removed), the rest splits on its own.
pub proof fn lemma_split_at_nl(cur: Seq<char>, rest: Seq<char>)
    requires
        forall|j: int| 0 <= j < cur.len() ==> cur[j] != '\n',
    ensures
        split_lines(cur + seq!['\n'] + rest) == seq![chomp_cr(cur)] + split_lines(rest),
{
    let s = cur + seq!['\n'] + rest;
    assert(s.len() == cur.len() + 1 + rest.len());
    assert forall|j: int| 0 <= j < cur.len() implies s[j] != '\n' by {
        assert(s[j] == cur[j]);
    }
    assert(s[cur.len() as int] == '\n');
    lemma_find_nl_bounds(s);
    let i = find_nl(s);
    if i < cur.len() {
        assert(s[i] == '\n');
        assert(false);
    }
    assert(i == cur.len());
    assert(s.take(i) =~= cur);
    assert(s.skip(i + 1) =~= rest);
    assert(split_lines(s) == seq![chomp_cr(cur)] + split_lines(rest));
}

/// Splits a text into its lines.
pub fn split_into_lines(chars: &Vec<char>) -> (r: Vec<Vec<char>>)
    ensures
        r.deep_view() == split_lines(chars@),
{
    let ghost whole = chars@;
    let mut done: Vec<Vec<char>> = Vec::new();
    let mut cur: Vec<char> = Vec::new();
    let mut i: usize = 0;
    proof {
        assert(cur@ + whole.skip(0) =~= whole);
        assert(done.deep_view() + split_lines(whole) =~~= split_lines(whole));
    }
    while i < chars.len()
        invariant
            0 <= i <= whole.len(),
            chars@ == whole,
            forall|j: int| 0 <= j < cur@.len() ==> cur@[j] != '\n',
            done.deep_view() + split_lines(cur@ + whole.skip(i as int)) == split_lines(whole),
        decreases whole.len() - i,
    {
        let c = chars[i];
        if c == '\n' {
            let ghost pre = cur@;
            if cur.len() > 0 && cur[cur.len() - 1] == '\r' {
                cur.pop();
            }
            proof {
                assert(cur@ =~= chomp_cr(pre));
                assert(whole.skip(i as int) =~= seq!['\n'] + whole.skip(i as int + 1));
                assert(pre + whole.skip(i as int) =~= pre + seq!['\n'] + whole.skip(i as int + 1));
                lemma_split_at_nl(pre, whole.skip(i as int + 1));
            }
            let ghost dpre = done.deep_view();
            done.push(cur);
            proof {
                assert(done.deep_view() =~~= dpre.push(chomp_cr(pre)));
                assert(done.deep_view() + split_lines(whole.skip(i as int + 1)) =~~= dpre + (seq![
                    chomp_cr(pre),
                ] + split_lines(whole.skip(i as int + 1))));
            }
            cur = Vec::new();
            proof {
                assert(cur@ + whole.skip(i as int + 1) =~= whole.skip(i as int + 1));
            }
        } else {
            let ghost pre = cur@;
            cur.push(c);
            proof {
                assert(pre + whole.skip(i as int) =~= cur@ + whole.skip(i as int + 1));
            }
        }
        i = i + 1;
    }
    proof {
        assert(cur@ + whole.skip(whole.len() as int) =~= cur@);
    }
    if cur.len() > 0 {
        let ghost dpre = done.deep_view();
        let ghost fin = cur@;
        proof {
            lemma_split_no_nl(fin);
        }
        done.push(cur);
        proof {
            assert(done.deep_view() =~~= dpre.push(fin));
            assert(done.deep_view() =~~= dpre + seq![fin]);
        }
    } else {
        proof {
            lemma_split_no_nl(cur@);
            assert(done.deep_view() + Seq::<Seq<char>>::empty() =~~= done.deep_view());
        }
    }
    done
}

} // verus!
