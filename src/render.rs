use vstd::prelude::*;

use crate::lines::{content, first_line_len, is_blank, join, lines, NEWLINE};
use crate::lines::{lemma_first_line_len_at, lemma_first_line_len_bounds, lemma_lines_unfold};
use crate::number::{prefix, push_prefix};

verus! {

/// Which lines receive a number.
#[derive(PartialEq, Eq, Structural, Clone, Copy, Debug)]
pub enum Numbering {
    /// No line is numbered: output is the input verbatim.
    Verbatim,
    /// Every line is numbered, blank or not.
    All,
    /// Only non-blank lines are numbered; blank lines pass through unchanged.
    NonBlank,
}

impl Numbering {
    /// Whether `line` receives a number under this policy.
    pub open spec fn numbers(self, line: Seq<u8>) -> bool {
        match self {
            Numbering::Verbatim => false,
            Numbering::All => true,
            Numbering::NonBlank => !is_blank(line),
        }
    }
}

/// One line as it is emitted when the counter stands at `n`.
pub open spec fn render_line(line: Seq<u8>, p: Numbering, n: nat) -> Seq<u8> {
    if p.numbers(line) {
        prefix(n) + line
    } else {
        line
    }
}

/// The counter after `line` was emitted at `n`.
pub open spec fn advance(line: Seq<u8>, p: Numbering, n: nat) -> nat {
    if p.numbers(line) {
        n + 1
    } else {
        n
    }
}

/// Lines emitted in order, the counter starting at `n`.
pub open spec fn render_lines(ls: Seq<Seq<u8>>, p: Numbering, n: nat) -> Seq<u8>
    decreases ls.len(),
{
    if ls.len() == 0 {
        Seq::empty()
    } else {
        render_line(ls[0], p, n) + render_lines(ls.drop_first(), p, advance(ls[0], p, n))
    }
}

/// How many of `ls` receive a number.
pub open spec fn count_numbered(ls: Seq<Seq<u8>>, p: Numbering) -> nat
    decreases ls.len(),
{
    if ls.len() == 0 {
        0
    } else {
        (if p.numbers(ls[0]) {
            1nat
        } else {
            0nat
        }) + count_numbered(ls.drop_first(), p)
    }
}

pub proof fn lemma_render_lines_append(a: Seq<Seq<u8>>, b: Seq<Seq<u8>>, p: Numbering, n: nat)
    ensures
        render_lines(a + b, p, n) == render_lines(a, p, n) + render_lines(
            b,
            p,
            n + count_numbered(a, p),
        ),
        count_numbered(a + b, p) == count_numbered(a, p) + count_numbered(b, p),
    decreases a.len(),
{
    if a.len() == 0 {
        assert(a + b =~= b);
        assert(render_lines(a, p, n) =~= Seq::<u8>::empty());
    } else {
        assert((a + b).drop_first() =~= a.drop_first() + b);
        lemma_render_lines_append(a.drop_first(), b, p, advance(a[0], p, n));
        assert(render_lines(a + b, p, n) =~= render_lines(a, p, n) + render_lines(
            b,
            p,
            n + count_numbered(a, p),
        ));
    }
}

/// At most one line is numbered per byte.
pub proof fn lemma_count_numbered_bound(s: Seq<u8>, p: Numbering)
    ensures
        count_numbered(lines(s), p) <= s.len(),
    decreases s.len(),
{
    if s.len() > 0 {
        lemma_first_line_len_bounds(s);
        lemma_lines_unfold(s);
        lemma_count_numbered_bound(s.skip(first_line_len(s) as int), p);
    } else {
        assert(lines(s) =~= Seq::<Seq<u8>>::empty());
    }
}

/// Emits the lines of `text` under `policy` onto `out`. `counter` holds the
/// number that the next numbered line gets; it goes up by one for each line
/// numbered here.
pub fn render(text: &[u8], policy: Numbering, counter: &mut u64, out: &mut Vec<u8>)
    requires
        *old(counter) + text@.len() <= u64::MAX,
    ensures
        final(out)@ == old(out)@ + render_lines(lines(text@), policy, *old(counter) as nat),
        *final(counter) == *old(counter) + count_numbered(lines(text@), policy),
{
    let len: usize = text.len();
    let mut start: usize = 0;
    assert(text@.skip(0) =~= text@);
    while start < len
        invariant
            len == text@.len(),
            start <= len,
            *counter as nat + (len - start) <= u64::MAX,
            out@ + render_lines(lines(text@.skip(start as int)), policy, *counter as nat) == old(
                out,
            )@ + render_lines(lines(text@), policy, *old(counter) as nat),
            *counter as nat + count_numbered(lines(text@.skip(start as int)), policy) == *old(
                counter,
            ) + count_numbered(lines(text@), policy),
        decreases len - start,
    {
        let ghost rest = text@.skip(start as int);
        let mut end: usize = start;
        while end < len && text[end] != NEWLINE
            invariant
                start <= end <= len,
                len == text@.len(),
                forall|j: int| start <= j < end ==> text@[j] != NEWLINE,
            decreases len - end,
        {
            end = end + 1;
        }
        proof {
            lemma_first_line_len_at(rest, (end - start) as nat);
        }
        if end < len {
            end = end + 1;
        }
        let blank: bool = end - start == 1 && text[start] == NEWLINE;
        let ghost line = rest.take((end - start) as int);
        proof {
            lemma_lines_unfold(rest);
            assert(text@.skip(end as int) =~= rest.skip((end - start) as int));
            assert(blank == is_blank(line)) by {
                if end - start == 1 && text[start as int] == NEWLINE {
                    assert(content(line) =~= Seq::<u8>::empty());
                } else {
                    assert(line.len() >= 1);
                    if line.last() == NEWLINE {
                        assert(line.len() >= 2);
                        assert(content(line).len() >= 1);
                    }
                }
            }
        }
        let ghost before = out@;
        let numbered: bool = match policy {
            Numbering::Verbatim => false,
            Numbering::All => true,
            Numbering::NonBlank => !blank,
        };
        if numbered {
            push_prefix(*counter, out);
        }
        let ghost mid = out@;
        let mut i: usize = start;
        while i < end
            invariant
                start <= i <= end <= len,
                len == text@.len(),
                out@ == mid + text@.subrange(start as int, i as int),
            decreases end - i,
        {
            out.push(text[i]);
            i = i + 1;
            assert(out@ =~= mid + text@.subrange(start as int, i as int));
        }
        proof {
            assert(text@.subrange(start as int, end as int) =~= line);
            assert(out@ == before + render_line(line, policy, *counter as nat));
            assert(out@ + render_lines(lines(text@.skip(end as int)), policy, advance(line, policy, *counter as nat))
                =~= before + render_lines(lines(rest), policy, *counter as nat));
        }
        if numbered {
            *counter = *counter + 1;
        }
        start = end;
    }
    proof {
        assert(lines(text@.skip(len as int)) =~= Seq::<Seq<u8>>::empty());
        assert(out@ =~= old(out)@ + render_lines(lines(text@), policy, *old(counter) as nat));
    }
}

} // verus!
