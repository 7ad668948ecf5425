use vstd::prelude::*;

use crate::text::string_push;

verus! {

broadcast use vstd::seq_lib::group_seq_properties;

/// The character that ends every line but the last.
pub open spec fn is_newline(c: char) -> bool {
    c == '\n'
}

/// A typed character that starts a new line: a line feed or a carriage return.
pub open spec fn is_line_break(c: char) -> bool {
    c == '\n' || c == '\r'
}

/// The number of characters of a line without its terminating newline.
pub open spec fn content_len(l: Seq<char>) -> int {
    if l.len() > 0 && is_newline(l.last()) {
        l.len() - 1
    } else {
        l.len() as int
    }
}

/// The lines of a text: it is cut after each newline, which stays with its line,
/// and the rest after the last newline (possibly empty) is the last line.
pub open spec fn split_lines(t: Seq<char>) -> Seq<Seq<char>>
    decreases t.len(),
{
    if t.len() == 0 {
        seq![Seq::<char>::empty()]
    } else {
        let r = split_lines(t.drop_last());
        let c = t.last();
        let grown = r.update(r.len() - 1, r.last().push(c));
        if is_newline(c) {
            grown.push(Seq::<char>::empty())
        } else {
            grown
        }
    }
}

/// Well-formed lines: at least one line; every line but the last ends with a newline
/// and holds no other; the last holds none.
pub open spec fn wf_lines(ls: Seq<Seq<char>>) -> bool {
    &&& ls.len() >= 1
    &&& forall|i: int|
        0 <= i < ls.len() - 1 ==> (#[trigger] ls[i]).len() >= 1 && is_newline(ls[i].last())
    &&& forall|i: int, j: int|
        0 <= i < ls.len() && 0 <= j < content_len(ls[i]) ==> !is_newline(#[trigger] ls[i][j])
    &&& forall|j: int|
        0 <= j < ls[ls.len() - 1].len() ==> !is_newline(#[trigger] ls[ls.len() - 1][j])
}

/// The views of a vector of character vectors.
pub open spec fn views(v: Seq<Vec<char>>) -> Seq<Seq<char>> {
    v.map_values(|l: Vec<char>| l@)
}

/// The lines after a character is typed at `(row, col)`: a line break splits the line
/// there, any other character is inserted; a position outside the text changes nothing.
pub open spec fn insert_at(ls: Seq<Seq<char>>, row: int, col: int, c: char) -> Seq<Seq<char>> {
    if 0 <= row < ls.len() && 0 <= col <= content_len(ls[row]) {
        let l = ls[row];
        if is_line_break(c) {
            ls.take(row) + seq![l.take(col).push('\n'), l.skip(col)] + ls.skip(row + 1)
        } else {
            ls.update(row, l.insert(col, c))
        }
    } else {
        ls
    }
}

/// The lines after a backspace at `(row, col)`: the character before the position goes;
/// at the start of a line other than the first, that line joins the one above.
/// A position outside the text, or the very start of the text, changes nothing.
pub open spec fn remove_at(ls: Seq<Seq<char>>, row: int, col: int) -> Seq<Seq<char>> {
    if 0 <= row < ls.len() && 1 <= col <= content_len(ls[row]) {
        ls.update(row, ls[row].remove(col - 1))
    } else if 0 < row < ls.len() && col == 0 {
        ls.take(row - 1) + seq![ls[row - 1].drop_last() + ls[row]] + ls.skip(row + 1)
    } else {
        ls
    }
}

/// The text shown for lines `from..to`, both clamped to the number of lines.
pub open spec fn lines_between(ls: Seq<Seq<char>>, from: int, to: int) -> Seq<char> {
    let a = if from < ls.len() { from } else { ls.len() as int };
    let b = if to < ls.len() { to } else { ls.len() as int };
    if a < b {
        ls.subrange(a, b).flatten()
    } else {
        Seq::empty()
    }
}

/// The length of line `i`, or 0 where there is no such line.
pub open spec fn line_len_of(ls: Seq<Seq<char>>, i: int) -> int {
    if 0 <= i < ls.len() {
        ls[i].len() as int
    } else {
        0
    }
}

/// A text held as its lines.
pub struct Buffer {
    lines: Vec<Vec<char>>,
}

impl View for Buffer {
    type V = Seq<Seq<char>>;

    closed spec fn view(&self) -> Seq<Seq<char>> {
        views(self.lines@)
    }
}

/// A text has at least one line.
pub proof fn lemma_split_lines_len(t: Seq<char>)
    ensures
        split_lines(t).len() >= 1,
    decreases t.len(),
{
    if t.len() > 0 {
        lemma_split_lines_len(t.drop_last());
    }
}

/// The lines of any text are well formed.
pub proof fn lemma_split_lines_wf(t: Seq<char>)
    ensures
        wf_lines(split_lines(t)),
    decreases t.len(),
{
    if t.len() > 0 {
        lemma_split_lines_wf(t.drop_last());
        let r = split_lines(t.drop_last());
        let c = t.last();
        let grown = r.update(r.len() - 1, r.last().push(c));
        assert(grown.last() == r.last().push(c));
        if is_newline(c) {
            assert(content_len(grown.last()) == r.last().len());
            assert(wf_lines(grown.push(Seq::<char>::empty())));
        } else {
            assert(wf_lines(grown));
        }
    }
}

proof fn lemma_insert_at_wf(ls: Seq<Seq<char>>, row: int, col: int, c: char)
    requires
        wf_lines(ls),
    ensures
        wf_lines(insert_at(ls, row, col, c)),
{
    if 0 <= row < ls.len() && 0 <= col <= content_len(ls[row]) {
        let l = ls[row];
        let n = ls.len() as int;
        if is_line_break(c) {
            let a = l.take(col).push('\n');
            let b = l.skip(col);
            let ls2 = insert_at(ls, row, col, c);
            assert(ls2 == ls.take(row) + seq![a, b] + ls.skip(row + 1));
            assert(ls2.len() == n + 1);
            assert forall|i: int| 0 <= i < ls2.len() implies #[trigger] ls2[i] == (if i < row {
                ls[i]
            } else if i == row {
                a
            } else if i == row + 1 {
                b
            } else {
                ls[i - 1]
            }) by {}
            assert(content_len(a) == col);
            assert forall|i: int| 0 <= i < ls2.len() - 1 implies (#[trigger] ls2[i]).len() >= 1
                && is_newline(ls2[i].last()) by {
                if i == row + 1 {
                    assert(row < n - 1);
                    assert(b.last() == l.last());
                }
            }
            assert forall|i: int, j: int|
                0 <= i < ls2.len() && 0 <= j < content_len(ls2[i]) implies !is_newline(
                #[trigger] ls2[i][j],
            ) by {
                if i == row {
                    assert(ls2[i][j] == l[j]);
                } else if i == row + 1 {
                    if row < n - 1 {
                        assert(content_len(b) == content_len(l) - col);
                    } else {
                        assert(!is_newline(l[j + col]));
                    }
                    assert(ls2[i][j] == l[j + col]);
                } else if i > row + 1 {
                    assert(ls2[i] == ls[i - 1]);
                }
            }
            assert forall|j: int| 0 <= j < ls2[ls2.len() - 1].len() implies !is_newline(
                #[trigger] ls2[ls2.len() - 1][j],
            ) by {
                if row == n - 1 {
                    assert(ls2[ls2.len() - 1] == b);
                    assert(b[j] == l[j + col]);
                } else {
                    assert(ls2[ls2.len() - 1] == ls[n - 1]);
                }
            }
        } else {
            let ls2 = insert_at(ls, row, col, c);
            let l2 = l.insert(col, c);
            assert(ls2 == ls.update(row, l2));
            if row < n - 1 {
                assert(l2.last() == l.last());
                assert(content_len(l2) == content_len(l) + 1);
            }
            assert forall|i: int, j: int|
                0 <= i < ls2.len() && 0 <= j < content_len(ls2[i]) implies !is_newline(
                #[trigger] ls2[i][j],
            ) by {
                if i == row {
                    if j < col {
                        assert(l2[j] == l[j]);
                    } else if j > col {
                        assert(l2[j] == l[j - 1]);
                    }
                }
            }
            assert forall|j: int| 0 <= j < ls2[ls2.len() - 1].len() implies !is_newline(
                #[trigger] ls2[ls2.len() - 1][j],
            ) by {
                if row == n - 1 {
                    if j < col {
                        assert(l2[j] == l[j]);
                    } else if j > col {
                        assert(l2[j] == l[j - 1]);
                    }
                }
            }
        }
    }
}

proof fn lemma_remove_at_wf(ls: Seq<Seq<char>>, row: int, col: int)
    requires
        wf_lines(ls),
    ensures
        wf_lines(remove_at(ls, row, col)),
{
}

/// Joining the lines of a text gives back the text.
pub proof fn lemma_split_lines_flatten(t: Seq<char>)
    ensures
        split_lines(t).flatten() == t,
    decreases t.len(),
{
    if t.len() > 0 {
        lemma_split_lines_flatten(t.drop_last());
        lemma_split_lines_len(t.drop_last());
        let r = split_lines(t.drop_last());
        let c = t.last();
        let grown = r.update(r.len() - 1, r.last().push(c));
        assert(r == r.drop_last().push(r.last()));
        assert(grown == r.drop_last().push(r.last().push(c)));
        r.drop_last().lemma_flatten_push(r.last());
        r.drop_last().lemma_flatten_push(r.last().push(c));
        let x = r.drop_last().flatten();
        assert(r.flatten() == x + r.last());
        assert(grown.flatten() == x + r.last().push(c));
        assert(x + r.last().push(c) =~= (x + r.last()).push(c));
        assert(t =~= t.drop_last().push(c));
        assert(grown.flatten() == t);
        if is_newline(c) {
            grown.lemma_flatten_push(Seq::<char>::empty());
            assert(grown.flatten() + Seq::<char>::empty() =~= grown.flatten());
            assert(split_lines(t) == grown.push(Seq::<char>::empty()));
        } else {
            assert(split_lines(t) == grown);
        }
    } else {
        seq![Seq::<char>::empty()].lemma_flatten_singleton();
        assert(split_lines(t).flatten() =~= t);
    }
}

proof fn lemma_split_append_plain(t: Seq<char>, s: Seq<char>)
    requires
        forall|j: int| 0 <= j < s.len() ==> !is_newline(#[trigger] s[j]),
    ensures
        split_lines(t + s) == split_lines(t).update(
            split_lines(t).len() - 1,
            split_lines(t).last() + s,
        ),
    decreases s.len(),
{
    lemma_split_lines_len(t);
    if s.len() == 0 {
        assert(t + s =~= t);
        assert(split_lines(t).last() + s =~= split_lines(t).last());
        assert(split_lines(t).update(split_lines(t).len() - 1, split_lines(t).last())
            =~= split_lines(t));
    } else {
        let s0 = s.drop_last();
        let c = s.last();
        lemma_split_append_plain(t, s0);
        assert((t + s).drop_last() =~= t + s0);
        assert((t + s).last() == c);
        let r = split_lines(t);
        let r0 = split_lines(t + s0);
        assert(r0 == r.update(r.len() - 1, r.last() + s0));
        assert((r.last() + s0).push(c) =~= r.last() + s);
        assert(split_lines(t + s) =~= r.update(r.len() - 1, r.last() + s));
    }
}

proof fn lemma_split_flatten_closed(ls: Seq<Seq<char>>)
    requires
        forall|i: int|
            0 <= i < ls.len() ==> (#[trigger] ls[i]).len() >= 1 && is_newline(ls[i].last()),
        forall|i: int, j: int|
            0 <= i < ls.len() && 0 <= j < ls[i].len() - 1 ==> !is_newline(#[trigger] ls[i][j]),
    ensures
        split_lines(ls.flatten()) == ls.push(Seq::<char>::empty()),
    decreases ls.len(),
{
    if ls.len() == 0 {
        assert(ls.flatten() =~= Seq::<char>::empty());
        assert(ls.push(Seq::<char>::empty()) =~= seq![Seq::<char>::empty()]);
    } else {
        let init = ls.drop_last();
        let l = ls.last();
        let s = l.drop_last();
        assert forall|i: int, j: int|
            0 <= i < init.len() && 0 <= j < init[i].len() - 1 implies !is_newline(
            #[trigger] init[i][j],
        ) by {
            assert(init[i] == ls[i]);
        }
        lemma_split_flatten_closed(init);
        assert(ls == init.push(l));
        init.lemma_flatten_push(l);
        assert(forall|j: int| 0 <= j < s.len() ==> s[j] == ls[ls.len() - 1][j]);
        lemma_split_append_plain(init.flatten(), s);
        let r = split_lines(init.flatten());
        assert(r == init.push(Seq::<char>::empty()));
        assert(r.update(r.len() - 1, r.last() + s) =~= init.push(s));
        assert(ls.flatten() =~= (init.flatten() + s).push('\n'));
        assert(s.push('\n') =~= l);
        let u = init.flatten() + s;
        let t = ls.flatten();
        assert(t.drop_last() =~= u);
        assert(t.last() == '\n');
        assert(split_lines(u) =~= init.push(s));
        let g = split_lines(u).update(split_lines(u).len() - 1, split_lines(u).last().push('\n'));
        assert(g =~= init.push(l));
        assert(split_lines(t) == g.push(Seq::<char>::empty()));
    }
}

/// Cutting the joined lines of a buffer gives back the same lines: reading the
/// whole text of a buffer into a new buffer changes nothing.
pub proof fn lemma_split_lines_of_flatten(ls: Seq<Seq<char>>)
    requires
        wf_lines(ls),
    ensures
        split_lines(ls.flatten()) == ls,
{
    let init = ls.drop_last();
    let l = ls.last();
    assert forall|i: int| 0 <= i < init.len() implies (#[trigger] init[i]).len() >= 1 && is_newline(
        init[i].last(),
    ) by {
        assert(init[i] == ls[i]);
    }
    assert forall|i: int, j: int|
        0 <= i < init.len() && 0 <= j < init[i].len() - 1 implies !is_newline(
        #[trigger] init[i][j],
    ) by {
        assert(init[i] == ls[i]);
        assert(content_len(ls[i]) == ls[i].len() - 1);
    }
    lemma_split_flatten_closed(init);
    assert(ls == init.push(l));
    init.lemma_flatten_push(l);
    lemma_split_append_plain(init.flatten(), l);
    let r = split_lines(init.flatten());
    assert(r.update(r.len() - 1, r.last() + l) =~= ls);
}

/// Reading all lines of a buffer into a new buffer gives the same lines:
/// `Buffer::new` of what `get_lines(0, get_lines_count())` returns.
pub proof fn lemma_reload_whole_text(ls: Seq<Seq<char>>)
    requires
        wf_lines(ls),
    ensures
        split_lines(lines_between(ls, 0, ls.len() as int)) == ls,
{
    assert(ls.subrange(0, ls.len() as int) == ls);
    lemma_split_lines_of_flatten(ls);
}

/// Typing a character never removes a line, and a line break adds exactly one.
pub proof fn lemma_insert_at_count(ls: Seq<Seq<char>>, row: int, col: int, c: char)
    ensures
        insert_at(ls, row, col, c).len() == if 0 <= row < ls.len() && 0 <= col <= content_len(ls[row])
            && is_line_break(c) {
            ls.len() + 1int
        } else {
            ls.len() as int
        },
{
}

/// A backspace removes at most one line: the one joined to the line above.
pub proof fn lemma_remove_at_count(ls: Seq<Seq<char>>, row: int, col: int)
    ensures
        remove_at(ls, row, col).len() == if !(0 <= row < ls.len() && 1 <= col <= content_len(ls[row]))
            && 0 < row < ls.len() && col == 0 {
            ls.len() - 1
        } else {
            ls.len() as int
        },
{
}

/// Where `(row, col)` falls in the whole text: the characters of the lines above, plus `col`.
pub open spec fn text_offset(ls: Seq<Seq<char>>, row: int, col: int) -> int {
    ls.take(row).flatten().len() + col
}

proof fn lemma_flatten_around(ls: Seq<Seq<char>>, row: int)
    requires
        0 <= row < ls.len(),
    ensures
        ls.flatten() == ls.take(row).flatten() + ls[row] + ls.skip(row + 1).flatten(),
{
    let a = ls.take(row);
    let b = ls.skip(row);
    let c = ls.skip(row + 1);
    let one = seq![ls[row]];
    vstd::seq_lib::lemma_flatten_concat(a, b);
    assert(a + b == ls);
    assert(b == one + c);
    vstd::seq_lib::lemma_flatten_concat(one, c);
    one.lemma_flatten_singleton();
    let x = a.flatten();
    let y = c.flatten();
    assert(ls.flatten() == x + (ls[row] + y));
    assert(x + (ls[row] + y) =~= x + ls[row] + y);
}

/// Typing at `(row, col)` inserts exactly one character into the whole text at
/// that position: the character itself, or a newline for a line break.
pub proof fn lemma_insert_at_text(ls: Seq<Seq<char>>, row: int, col: int, c: char)
    requires
        wf_lines(ls),
        0 <= row < ls.len(),
        0 <= col <= content_len(ls[row]),
    ensures
        insert_at(ls, row, col, c).flatten() == ls.flatten().insert(
            text_offset(ls, row, col),
            if is_line_break(c) {
                '\n'
            } else {
                c
            },
        ),
{
    let x = if is_line_break(c) {
        '\n'
    } else {
        c
    };
    let l = ls[row];
    let pre = ls.take(row).flatten();
    let post = ls.skip(row + 1).flatten();
    lemma_flatten_around(ls, row);
    let ls2 = insert_at(ls, row, col, c);
    let l2 = l.insert(col, x);
    if is_line_break(c) {
        let a = l.take(col).push('\n');
        let b = l.skip(col);
        assert(ls2 == ls.take(row) + seq![a, b] + ls.skip(row + 1));
        vstd::seq_lib::lemma_flatten_concat(ls.take(row) + seq![a, b], ls.skip(row + 1));
        vstd::seq_lib::lemma_flatten_concat(ls.take(row), seq![a, b]);
        assert(seq![a, b] == seq![a].push(b));
        seq![a].lemma_flatten_push(b);
        seq![a].lemma_flatten_singleton();
        assert(a + b =~= l2);
        assert(ls2.flatten() =~= pre + l2 + post);
    } else {
        assert(ls2 == ls.update(row, l2));
        lemma_flatten_around(ls2, row);
        assert(ls2.take(row) =~= ls.take(row));
        assert(ls2.skip(row + 1) =~= ls.skip(row + 1));
    }
    assert(pre + l2 + post =~= (pre + l + post).insert(pre.len() + col, x));
}

/// A backspace at `(row, col)`, other than at the very start of the text, removes
/// exactly the character of the whole text just before that position (a newline
/// where the line joins the one above).
pub proof fn lemma_remove_at_text(ls: Seq<Seq<char>>, row: int, col: int)
    requires
        wf_lines(ls),
        0 <= row < ls.len(),
        0 <= col <= content_len(ls[row]),
        row > 0 || col > 0,
    ensures
        remove_at(ls, row, col).flatten() == ls.flatten().remove(text_offset(ls, row, col) - 1),
{
    let l = ls[row];
    let pre = ls.take(row).flatten();
    let post = ls.skip(row + 1).flatten();
    lemma_flatten_around(ls, row);
    let ls2 = remove_at(ls, row, col);
    if col >= 1 {
        let l2 = l.remove(col - 1);
        assert(ls2 == ls.update(row, l2));
        lemma_flatten_around(ls2, row);
        assert(ls2.take(row) =~= ls.take(row));
        assert(ls2.skip(row + 1) =~= ls.skip(row + 1));
        assert(pre + l2 + post =~= (pre + l + post).remove(pre.len() + col - 1));
    } else {
        let p = ls[row - 1];
        let j = p.drop_last() + l;
        assert(ls2 == ls.take(row - 1) + seq![j] + ls.skip(row + 1));
        let pre0 = ls.take(row - 1).flatten();
        assert(ls.take(row) == ls.take(row - 1).push(p));
        ls.take(row - 1).lemma_flatten_push(p);
        assert(pre == pre0 + p);
        vstd::seq_lib::lemma_flatten_concat(ls.take(row - 1) + seq![j], ls.skip(row + 1));
        ls.take(row - 1).lemma_flatten_push(j);
        assert(ls.take(row - 1) + seq![j] == ls.take(row - 1).push(j));
        assert(ls2.flatten() == pre0 + j + post);
        assert(p.len() >= 1);
        assert(pre0 + j + post =~= (pre0 + p + l + post).remove(pre0.len() + p.len() - 1));
        assert(pre0 + p + l + post =~= pre + l + post);
    }
}

/// A backspace right after a typed character takes it away again: the lines are as before.
/// After a line break the position is the start of the new line, else one column on.
pub proof fn lemma_remove_undoes_insert(ls: Seq<Seq<char>>, row: int, col: int, c: char)
    requires
        wf_lines(ls),
        0 <= row < ls.len(),
        0 <= col <= content_len(ls[row]),
    ensures
        is_line_break(c) ==> remove_at(insert_at(ls, row, col, c), row + 1, 0) == ls,
        !is_line_break(c) ==> remove_at(insert_at(ls, row, col, c), row, col + 1) == ls,
{
    let l = ls[row];
    let ls2 = insert_at(ls, row, col, c);
    if is_line_break(c) {
        let a = l.take(col).push('\n');
        let b = l.skip(col);
        assert(ls2 == ls.take(row) + seq![a, b] + ls.skip(row + 1));
        assert(ls2[row] == a && ls2[row + 1] == b);
        assert(a.drop_last() + b =~= l);
        assert(ls2.take(row) =~= ls.take(row));
        assert(ls2.skip(row + 2) =~= ls.skip(row + 1));
        assert(remove_at(ls2, row + 1, 0) =~= ls);
    } else {
        let l2 = l.insert(col, c);
        if row < ls.len() - 1 {
            assert(l2.last() == l.last());
        }
        assert(content_len(l2) == content_len(l) + 1);
        assert(l2.remove(col) =~= l);
        assert(remove_at(ls2, row, col + 1) =~= ls);
    }
}

/// The lines of `text`, each as its characters.
pub fn split_text(text: &str) -> (v: Vec<Vec<char>>)
    ensures
        views(v@) == split_lines(text@),
{
    let mut done: Vec<Vec<char>> = Vec::new();
    let mut cur: Vec<char> = Vec::new();
    for c in it: text.chars()
        invariant
            it.seq() == text@,
            views(done@).push(cur@) == split_lines(text@.take(it.index() as int)),
    {
        let ghost pre = text@.take(it.index() as int);
        let ghost post = text@.take(it.index() + 1);
        assert(post.drop_last() == pre);
        proof {
            lemma_split_lines_len(pre);
        }
        cur.push(c);
        if c == '\n' {
            done.push(cur);
            cur = Vec::new();
            assert(views(done@).push(cur@) =~= split_lines(post));
        } else {
            assert(views(done@).push(cur@) =~= split_lines(post));
        }
    }
    assert(text@.take(text@.len() as int) == text@);
    done.push(cur);
    assert(views(done@) =~= split_lines(text@));
    done
}

impl Buffer {
    /// The buffer holding `text`, cut into lines.
    pub fn new(text: &str) -> (b: Buffer)
        ensures
            b@ == split_lines(text@),
            b.wf(),
    {
        proof {
            lemma_split_lines_wf(text@);
        }
        Buffer { lines: split_text(text) }
    }

    /// The buffer's lines are well formed.
    pub open spec fn wf(&self) -> bool {
        wf_lines(self@)
    }

    /// The number of lines; a text ending with a newline has an empty last line.
    pub fn get_lines_count(&self) -> (n: usize)
        ensures
            n == self@.len(),
    {
        self.lines.len()
    }

    /// The number of characters of line `i`, its newline included; 0 where there is no line `i`.
    pub fn line_len(&self, i: usize) -> (n: usize)
        ensures
            n == line_len_of(self@, i as int),
    {
        if i < self.lines.len() {
            self.lines[i].len()
        } else {
            0
        }
    }

    /// The number of characters of line `i` before its newline.
    pub fn content_len_at(&self, i: usize) -> (n: usize)
        requires
            i < self@.len(),
        ensures
            n == content_len(self@[i as int]),
    {
        let l = &self.lines[i];
        let n = l.len();
        if n > 0 && l[n - 1] == '\n' {
            n - 1
        } else {
            n
        }
    }

    /// The text of lines `from..to`, both bounds clamped to the number of lines.
    pub fn get_lines(&self, from: usize, to: usize) -> (s: String)
        ensures
            s@ == lines_between(self@, from as int, to as int),
    {
        let count = self.lines.len();
        let a = if from < count { from } else { count };
        let b = if to < count { to } else { count };
        let mut s = String::new();
        if a >= b {
            return s;
        }
        let mut i = a;
        while i < b
            invariant
                a <= i <= b <= count == self.lines@.len(),
                s@ == self@.subrange(a as int, i as int).flatten(),
            decreases b - i,
        {
            let line = &self.lines[i];
            let mut j: usize = 0;
            while j < line.len()
                invariant
                    0 <= j <= line@.len(),
                    line@ == self@[i as int],
                    s@ == self@.subrange(a as int, i as int).flatten() + line@.take(j as int),
                decreases line@.len() - j,
            {
                string_push(&mut s, line[j]);
                assert(line@.take(j + 1) == line@.take(j as int).push(line@[j as int]));
                j = j + 1;
            }
            proof {
                assert(line@.take(line@.len() as int) == line@);
                assert(self@.subrange(a as int, i + 1) == self@.subrange(a as int, i as int).push(self@[i as int]));
                self@.subrange(a as int, i as int).lemma_flatten_push(self@[i as int]);
            }
            i = i + 1;
        }
        s
    }

    /// Types `c` at `(row, col)`: see `insert_at`.
    pub fn insert_char(&mut self, row: usize, col: usize, c: char)
        requires
            old(self).wf(),
        ensures
            final(self).wf(),
            final(self)@ == insert_at(old(self)@, row as int, col as int, c),
    {
        if row < self.lines.len() {
            let cl = self.content_len_at(row);
            if col <= cl {
                let ghost ls = self@;
                let mut line = self.lines.remove(row);
                if c == '\n' || c == '\r' {
                    let tail = line.split_off(col);
                    line.push('\n');
                    self.lines.insert(row, line);
                    self.lines.insert(row + 1, tail);
                } else {
                    line.insert(col, c);
                    self.lines.insert(row, line);
                }
                assert(self@ =~= insert_at(ls, row as int, col as int, c));
                proof {
                    lemma_insert_at_wf(ls, row as int, col as int, c);
                }
            }
        }
    }

    /// A backspace at `(row, col)`: see `remove_at`.
    pub fn remove_char(&mut self, row: usize, col: usize)
        requires
            old(self).wf(),
        ensures
            final(self).wf(),
            final(self)@ == remove_at(old(self)@, row as int, col as int),
    {
        if row < self.lines.len() {
            let cl = self.content_len_at(row);
            let ghost ls = self@;
            if 1 <= col && col <= cl {
                let mut line = self.lines.remove(row);
                line.remove(col - 1);
                self.lines.insert(row, line);
                assert(self@ =~= remove_at(ls, row as int, col as int));
            } else if col == 0 && row > 0 {
                let mut line = self.lines.remove(row);
                let mut prev = self.lines.remove(row - 1);
                prev.pop();
                prev.append(&mut line);
                self.lines.insert(row - 1, prev);
                assert(self@ =~= remove_at(ls, row as int, col as int));
            }
            proof {
                lemma_remove_at_wf(ls, row as int, col as int);
            }
        }
    }
}

} // verus!
