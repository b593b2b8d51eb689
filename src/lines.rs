use vstd::prelude::*;

verus! {

/// The line terminator.
pub const NEWLINE: u8 = 10;

/// Length of the first line of `s`, its terminator included (all of `s` when
/// `s` holds no terminator).
pub open spec fn first_line_len(s: Seq<u8>) -> nat
    decreases s.len(),
{
    if s.len() == 0 {
        0
    } else if s[0] == NEWLINE {
        1
    } else {
        1 + first_line_len(s.drop_first())
    }
}

/// The lines of `s` in order, each with its terminator; a last line without
/// terminator is kept as it is. Every line is non-empty.
pub open spec fn lines(s: Seq<u8>) -> Seq<Seq<u8>>
    decreases s.len(),
    via lines_decreases
{
    if s.len() == 0 {
        Seq::empty()
    } else {
        let k = first_line_len(s);
        seq![s.take(k as int)] + lines(s.skip(k as int))
    }
}

#[via_fn]
proof fn lines_decreases(s: Seq<u8>) {
    if s.len() > 0 {
        lemma_first_line_len_bounds(s);
    }
}

/// What a line holds without its terminator.
pub open spec fn content(line: Seq<u8>) -> Seq<u8> {
    if line.len() > 0 && line.last() == NEWLINE {
        line.drop_last()
    } else {
        line
    }
}

/// A line is blank when it holds nothing but its terminator.
pub open spec fn is_blank(line: Seq<u8>) -> bool {
    content(line).len() == 0
}

/// The bytes of a sequence of lines, one after another.
pub open spec fn join(ls: Seq<Seq<u8>>) -> Seq<u8>
    decreases ls.len(),
{
    if ls.len() == 0 {
        Seq::empty()
    } else {
        ls[0] + join(ls.drop_first())
    }
}

pub proof fn lemma_first_line_len_bounds(s: Seq<u8>)
    requires
        s.len() > 0,
    ensures
        1 <= first_line_len(s) <= s.len(),
    decreases s.len(),
{
    if s[0] != NEWLINE {
        if s.len() > 1 {
            lemma_first_line_len_bounds(s.drop_first());
        } else {
            assert(first_line_len(s.drop_first()) == 0);
        }
    }
}

/// The first line ends at the first terminator, or with `s`.
pub proof fn lemma_first_line_len_at(s: Seq<u8>, m: nat)
    requires
        m <= s.len(),
        forall|j: int| 0 <= j < m ==> s[j] != NEWLINE,
        m == s.len() || s[m as int] == NEWLINE,
    ensures
        first_line_len(s) == if m < s.len() { m + 1 } else { m },
    decreases m,
{
    if m > 0 {
        lemma_first_line_len_at(s.drop_first(), (m - 1) as nat);
    }
}

/// Unfolds `lines` at a non-empty input.
pub proof fn lemma_lines_unfold(s: Seq<u8>)
    requires
        s.len() > 0,
    ensures
        lines(s).len() > 0,
        lines(s)[0] == s.take(first_line_len(s) as int),
        lines(s).drop_first() == lines(s.skip(first_line_len(s) as int)),
{
    let k = first_line_len(s);
    let rest = lines(s.skip(k as int));
    assert((seq![s.take(k as int)] + rest).drop_first() =~= rest);
}

/// Joining the lines of `s` gives back `s`.
pub proof fn lemma_join_lines(s: Seq<u8>)
    ensures
        join(lines(s)) == s,
    decreases s.len(),
{
    if s.len() > 0 {
        lemma_first_line_len_bounds(s);
        lemma_lines_unfold(s);
        let k = first_line_len(s) as int;
        lemma_join_lines(s.skip(k));
        assert(s.take(k) + s.skip(k) =~= s);
    } else {
        assert(lines(s) =~= Seq::<Seq<u8>>::empty());
    }
}

} // verus!
