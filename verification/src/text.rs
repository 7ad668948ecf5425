use vstd::prelude::*;

use crate::buffer::{split_lines, split_text, views, lemma_split_lines_len};

verus! {

broadcast use vstd::seq_lib::group_seq_properties;

/// Appends one character to a string (`String::push`).
#[verifier::external_body]
pub(crate) fn string_push(s: &mut String, c: char)
    ensures
        final(s)@ == old(s)@.push(c),
{
    s.push(c);
}

/// Removes the last character of a string, if there is one (`String::pop`).
#[verifier::external_body]
pub(crate) fn string_pop(s: &mut String)
    ensures
        old(s)@.len() > 0 ==> final(s)@ == old(s)@.drop_last(),
        old(s)@.len() == 0 ==> final(s)@ == old(s)@,
{
    s.pop();
}

/// A line as `str::lines` gives it: without its `\n`, and without a `\r` just before that `\n`.
pub open spec fn strip_line_end(l: Seq<char>) -> Seq<char> {
    if l.len() > 0 && l.last() == '\n' {
        let m = l.drop_last();
        if m.len() > 0 && m.last() == '\r' {
            m.drop_last()
        } else {
            m
        }
    } else {
        l
    }
}

/// The lines of a text as `str::lines` gives them: cut after each `\n`, an empty
/// rest after the last `\n` dropped, the line endings removed.
pub open spec fn text_lines_of(t: Seq<char>) -> Seq<Seq<char>> {
    let ls = split_lines(t);
    let kept = if ls.last().len() == 0 {
        ls.drop_last()
    } else {
        ls
    };
    strip_all(kept)
}

/// Every line without its line ending.
pub open spec fn strip_all(ls: Seq<Seq<char>>) -> Seq<Seq<char>> {
    ls.map_values(|l: Seq<char>| strip_line_end(l))
}

/// The string holding the characters `v`.
pub fn chars_to_string(v: &Vec<char>) -> (s: String)
    ensures
        s@ == v@,
{
    let mut s = String::new();
    let mut i: usize = 0;
    while i < v.len()
        invariant
            0 <= i <= v@.len(),
            s@ == v@.take(i as int),
        decreases v@.len() - i,
    {
        string_push(&mut s, v[i]);
        assert(v@.take(i + 1) == v@.take(i as int).push(v@[i as int]));
        i = i + 1;
    }
    assert(v@.take(v@.len() as int) == v@);
    s
}

/// The lines of `text` as `str::lines` gives them.
pub fn text_lines(text: &str) -> (r: Vec<String>)
    ensures
        string_seq_views(r@) == text_lines_of(text@),
{
    let raw = split_text(text);
    proof {
        lemma_split_lines_len(text@);
    }
    let n = raw.len();
    let k = if raw[n - 1].len() == 0 {
        n - 1
    } else {
        n
    };
    let ghost ls = split_lines(text@);
    let ghost kept = if ls.last().len() == 0 {
        ls.drop_last()
    } else {
        ls
    };
    assert(kept.len() == k);
    let mut r: Vec<String> = Vec::new();
    let mut i: usize = 0;
    while i < k
        invariant
            0 <= i <= k <= n == raw@.len(),
            views(raw@) == ls,
            kept == ls.take(k as int),
            r@.len() == i,
            string_seq_views(r@) == strip_all(kept.take(i as int)),
        decreases k - i,
    {
        let l = &raw[i];
        assert(l@ == kept[i as int]);
        let mut e = l.len();
        if e > 0 && l[e - 1] == '\n' {
            e = e - 1;
            if e > 0 && l[e - 1] == '\r' {
                e = e - 1;
            }
        }
        let mut cut: Vec<char> = Vec::new();
        let mut j: usize = 0;
        while j < e
            invariant
                0 <= j <= e <= l@.len(),
                cut@ == l@.take(j as int),
            decreases e - j,
        {
            cut.push(l[j]);
            assert(l@.take(j + 1) == l@.take(j as int).push(l@[j as int]));
            j = j + 1;
        }
        assert(cut@ == strip_line_end(l@));
        let line = chars_to_string(&cut);
        let ghost r0 = r@;
        r.push(line);
        assert(r@ == r0.push(line));
        assert(kept.take(i + 1) == kept.take(i as int).push(kept[i as int]));

        assert forall|x: int| 0 <= x < i + 1 implies #[trigger] string_seq_views(r@)[x] == strip_all(
            kept.take(i + 1),
        )[x] by {
            if x < i {
                assert(string_seq_views(r0)[x] == strip_all(kept.take(i as int))[x]);
                assert(r@[x] == r0[x]);
            } else {
                assert(r@[x] == line);
            }
        }
        assert(string_seq_views(r@) =~= strip_all(kept.take(i + 1)));
        i = i + 1;
    }
    assert(kept.take(k as int) == kept);
    r
}

/// The views of some strings.
pub open spec fn string_seq_views(v: Seq<String>) -> Seq<Seq<char>> {
    v.map_values(|s: String| s@)
}

} // verus!
