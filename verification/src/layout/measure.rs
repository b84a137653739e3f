//! Sizing a text node: its lines (as `str::lines` splits them), the width
//! of the widest one in terminal columns, and how many rows the text takes
//! when its lines wrap at the available width. One column and one row per
//! terminal cell.

use vstd::prelude::*;
use crate::text::{chars_of, display_width, str_width, string_from_chars};

verus! {

/// The index of the first newline of `s`, or `s.len()`.
pub open spec fn newline_index(s: Seq<char>) -> nat
    decreases s.len(),
{
    if s.len() == 0 {
        0
    } else if s[0] == '\n' {
        0
    } else {
        1 + newline_index(s.drop_first())
    }
}

/// A line's text without the `\r` of a `\r\n` ending.
pub open spec fn strip_cr(l: Seq<char>) -> Seq<char> {
    if l.len() > 0 && l.last() == '\r' {
        l.drop_last()
    } else {
        l
    }
}

/// The lines of `s`, as `str::lines` gives them: split at `\n` and `\r\n`,
/// without the line endings, the last ending optional.
pub open spec fn text_lines(s: Seq<char>) -> Seq<Seq<char>>
    decreases s.len(),
{
    let i = newline_index(s);
    if s.len() == 0 {
        Seq::empty()
    } else if i >= s.len() {
        seq![s]
    } else {
        seq![strip_cr(s.take(i as int))] + text_lines(s.skip(i as int + 1))
    }
}

/// The display width of the widest line.
pub open spec fn widest(lines: Seq<Seq<char>>) -> nat
    decreases lines.len(),
{
    if lines.len() == 0 {
        0
    } else {
        let w = display_width(lines.last());
        let rest = widest(lines.drop_last());
        if w > rest {
            w
        } else {
            rest
        }
    }
}

/// The rows a line of width `w` takes when wrapped at `per_line` columns;
/// an empty line takes one.
pub open spec fn line_rows(w: nat, per_line: nat) -> nat {
    if w == 0 {
        1
    } else {
        w / per_line + if w % per_line == 0 {
            0nat
        } else {
            1nat
        }
    }
}

/// The rows all lines take when wrapped at `per_line` columns.
pub open spec fn wrapped_rows(lines: Seq<Seq<char>>, per_line: nat) -> nat
    decreases lines.len(),
{
    if lines.len() == 0 {
        0
    } else {
        wrapped_rows(lines.drop_last(), per_line) + line_rows(display_width(lines.last()), per_line)
    }
}

/// The rows a text takes: when a line is wider than the available width
/// (none: unbounded), each line wraps at that width (at least one column);
/// otherwise one row per line, and at least one.
pub open spec fn text_rows(s: Seq<char>, avail: Option<nat>) -> nat {
    let lines = text_lines(s);
    match avail {
        Some(a) if widest(lines) > a => wrapped_rows(
            lines,
            if a == 0 {
                1
            } else {
                a
            },
        ),
        _ => if lines.len() == 0 {
            1
        } else {
            lines.len()
        },
    }
}

proof fn lemma_newline_index(s: Seq<char>)
    ensures
        newline_index(s) <= s.len(),
        forall|j: int| 0 <= j < newline_index(s) ==> s[j] != '\n',
        newline_index(s) < s.len() ==> s[newline_index(s) as int] == '\n',
    decreases s.len(),
{
    if s.len() > 0 && s[0] != '\n' {
        lemma_newline_index(s.drop_first());
        assert forall|j: int| 0 <= j < newline_index(s) implies s[j] != '\n' by {
            if j > 0 {
                assert(s[j] == s.drop_first()[j - 1]);
            }
        }
    }
}

proof fn lemma_newline_index_of(cur: Seq<char>, rest: Seq<char>)
    requires
        forall|j: int| 0 <= j < cur.len() ==> cur[j] != '\n',
    ensures
        newline_index(cur + rest) == cur.len() + newline_index(rest),
    decreases cur.len(),
{
    if cur.len() > 0 {
        assert((cur + rest).drop_first() =~= cur.drop_first() + rest);
        assert((cur + rest)[0] == cur[0]);
        lemma_newline_index_of(cur.drop_first(), rest);
    }
}

/// The lines of `text`, as `str::lines` gives them.
pub fn lines_of(text: &str) -> (lines: Vec<Vec<char>>)
    ensures
        lines@.len() == text_lines(text@).len(),
        forall|i: int| 0 <= i < lines@.len() ==> lines@[i]@ == text_lines(text@)[i],
{
    let cs = chars_of(text);
    let ghost s = text@;
    let mut lines: Vec<Vec<char>> = Vec::new();
    let mut cur: Vec<char> = Vec::new();
    let mut i: usize = 0;
    proof {
        assert(cur@ + s.skip(0) =~= s);
        assert(Seq::new(lines@.len(), |k: int| lines@[k]@) + text_lines(s) =~= text_lines(s));
    }
    while i < cs.len()
        invariant
            cs@ == s,
            i <= s.len(),
            forall|j: int| 0 <= j < cur@.len() ==> cur@[j] != '\n',
            ({
                let done = Seq::new(lines@.len(), |k: int| lines@[k]@);
                text_lines(s) == done + text_lines(cur@ + s.skip(i as int))
            }),
        decreases s.len() - i,
    {
        let c = cs[i];
        let ghost done0 = Seq::new(lines@.len(), |k: int| lines@[k]@);
        let ghost t = cur@ + s.skip(i as int);
        if c == '\n' {
            let ghost oc = cur@;
            proof {
                lemma_newline_index_of(cur@, s.skip(i as int));
                assert(s.skip(i as int)[0] == '\n');
                assert(newline_index(t) == cur@.len());
                assert(t.take(cur@.len() as int) =~= cur@);
                assert(t.skip(cur@.len() as int + 1) =~= s.skip(i + 1));
                assert(text_lines(t) == seq![strip_cr(cur@)] + text_lines(s.skip(i + 1)));
            }
            let mut line = cur;
            let n = line.len();
            if n > 0 && line[n - 1] == '\r' {
                line.pop();
            }
            proof {
                assert(line@ =~= strip_cr(oc));
            }
            lines.push(line);
            cur = Vec::new();
            proof {
                let done = Seq::new(lines@.len(), |k: int| lines@[k]@);
                assert(done =~= done0.push(strip_cr(oc)));
                assert(done0 + (seq![strip_cr(oc)] + text_lines(s.skip(i + 1))) =~= done0.push(
                    strip_cr(oc),
                ) + text_lines(s.skip(i + 1)));
                assert(cur@ + s.skip(i + 1) =~= s.skip(i + 1));
            }
        } else {
            proof {
                assert(cur@.push(c) + s.skip(i + 1) =~= t);
            }
            cur.push(c);
            proof {
                let done = Seq::new(lines@.len(), |k: int| lines@[k]@);
                assert(done =~= done0);
            }
        }
        i = i + 1;
    }
    proof {
        assert(s.skip(s.len() as int) =~= Seq::<char>::empty());
        assert(cur@ + s.skip(s.len() as int) =~= cur@);
        lemma_newline_index(cur@);
    }
    let ghost done0 = Seq::new(lines@.len(), |k: int| lines@[k]@);
    if cur.len() > 0 {
        proof {
            assert(text_lines(cur@) == seq![cur@]);
        }
        lines.push(cur);
        proof {
            let done = Seq::new(lines@.len(), |k: int| lines@[k]@);
            assert(done =~= done0 + seq![cur@]);
        }
    } else {
        proof {
            assert(done0 + text_lines(cur@) =~= done0);
        }
    }
    lines
}

/// An optional width as a number.
pub open spec fn opt_nat(o: Option<usize>) -> Option<nat> {
    match o {
        Some(a) => Some(a as nat),
        None => None,
    }
}

/// `n`, or `usize::MAX` when it is larger.
pub open spec fn capped(n: nat) -> nat {
    if n > usize::MAX {
        usize::MAX as nat
    } else {
        n
    }
}

/// The width of the widest line of `text`, in columns, and the rows the
/// text takes at `avail` columns (none: unbounded), the rows capped at
/// `usize::MAX`.
pub fn measure_text(text: &str, avail: Option<usize>) -> (r: (usize, usize))
    ensures
        r.0 == widest(text_lines(text@)),
        r.1 == capped(text_rows(text@, opt_nat(avail))),
{
    let lines = lines_of(text);
    let ghost ls = text_lines(text@);
    let mut widths: Vec<usize> = Vec::new();
    let mut wide: usize = 0;
    let mut i: usize = 0;
    while i < lines.len()
        invariant
            lines@.len() == ls.len(),
            forall|k: int| 0 <= k < lines@.len() ==> lines@[k]@ == ls[k],
            i <= ls.len(),
            widths@.len() == i,
            forall|k: int| 0 <= k < i ==> widths@[k] == display_width(ls[k]),
            wide == widest(ls.take(i as int)),
        decreases ls.len() - i,
    {
        let line = string_from_chars(lines[i].as_slice());
        let w = str_width(line.as_str());
        proof {
            assert(ls.take(i + 1).drop_last() =~= ls.take(i as int));
            assert(ls.take(i + 1).last() == ls[i as int]);
        }
        if w > wide {
            wide = w;
        }
        widths.push(w);
        i = i + 1;
    }
    proof {
        assert(ls.take(ls.len() as int) =~= ls);
    }
    let rows: usize = match avail {
        Some(a) if wide > a => {
            let per: usize = if a == 0 {
                1
            } else {
                a
            };
            let mut rows: usize = 0;
            let mut k: usize = 0;
            while k < widths.len()
                invariant
                    widths@.len() == ls.len(),
                    forall|j: int| 0 <= j < widths@.len() ==> widths@[j] == display_width(ls[j]),
                    per > 0,
                    k <= ls.len(),
                    rows == capped(wrapped_rows(ls.take(k as int), per as nat)),
                decreases ls.len() - k,
            {
                let w = widths[k];
                let lr: usize = if w == 0 {
                    1
                } else if w % per == 0 {
                    w / per
                } else {
                    assert(per >= 2);
                    assert(w / per <= w / 2) by (nonlinear_arith)
                        requires
                            per >= 2,
                    ;
                    w / per + 1
                };
                proof {
                    assert(ls.take(k + 1).drop_last() =~= ls.take(k as int));
                    assert(ls.take(k + 1).last() == ls[k as int]);
                    assert(lr == line_rows(w as nat, per as nat));
                }
                rows = rows.saturating_add(lr);
                k = k + 1;
            }
            proof {
                assert(ls.take(ls.len() as int) =~= ls);
            }
            rows
        },
        _ => {
            if lines.len() == 0 {
                1
            } else {
                lines.len()
            }
        },
    };
    (wide, rows)
}

} // verus!
