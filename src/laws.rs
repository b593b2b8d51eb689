use vstd::prelude::*;

use crate::config::policy_of;
use crate::lines::{is_blank, join, lemma_join_lines};
use crate::number::prefix;
use crate::render::{advance, count_numbered, render_line, render_lines, Numbering};
use crate::run::{
    all_bytes, all_diagnostics, all_lines, open_failure, run_out, source_bytes, source_lines,
    SourceRead,
};

verus! {

proof fn lemma_join_append(a: Seq<Seq<u8>>, b: Seq<Seq<u8>>)
    ensures
        join(a + b) == join(a) + join(b),
    decreases a.len(),
{
    if a.len() == 0 {
        assert(a + b =~= b);
        assert(join(a) =~= Seq::<u8>::empty());
    } else {
        assert((a + b).drop_first() =~= a.drop_first() + b);
        lemma_join_append(a.drop_first(), b);
        assert(join(a + b) =~= join(a) + join(b));
    }
}

proof fn lemma_all_lines_append(a: Seq<SourceRead>, b: Seq<SourceRead>)
    ensures
        all_lines(a + b) == all_lines(a) + all_lines(b),
    decreases b.len(),
{
    if b.len() == 0 {
        assert(a + b =~= a);
        assert(all_lines(a) + all_lines(b) =~= all_lines(a));
    } else {
        assert((a + b).drop_last() =~= a + b.drop_last());
        lemma_all_lines_append(a, b.drop_last());
        assert(all_lines(a + b) =~= all_lines(a) + all_lines(b));
    }
}

proof fn lemma_join_all_lines(rs: Seq<SourceRead>)
    ensures
        join(all_lines(rs)) == all_bytes(rs),
    decreases rs.len(),
{
    if rs.len() == 0 {
        assert(join(all_lines(rs)) =~= Seq::<u8>::empty());
    } else {
        lemma_join_all_lines(rs.drop_last());
        lemma_join_append(all_lines(rs.drop_last()), source_lines(rs.last()));
        lemma_join_lines(source_bytes(rs.last()));
        match rs.last() {
            SourceRead::OpenFailed { .. } => {
                assert(join(source_lines(rs.last())) =~= Seq::<u8>::empty());
                assert(all_bytes(rs) =~= all_bytes(rs.drop_last()));
            },
            SourceRead::Read { .. } => {},
        }
    }
}

proof fn lemma_verbatim_join(ls: Seq<Seq<u8>>, n: nat)
    ensures
        render_lines(ls, Numbering::Verbatim, n) == join(ls),
    decreases ls.len(),
{
    if ls.len() > 0 {
        lemma_verbatim_join(ls.drop_first(), n);
    }
}

/// Each line is rendered with the number `n` plus the count of numbered lines
/// before it.
pub proof fn lemma_render_lines_indexed(ls: Seq<Seq<u8>>, p: Numbering, n: nat)
    ensures
        render_lines(ls, p, n) == join(
            Seq::new(
                ls.len(),
                |i: int| render_line(ls[i], p, n + count_numbered(ls.take(i), p)),
            ),
        ),
    decreases ls.len(),
{
    let whole = Seq::new(
        ls.len(),
        |i: int| render_line(ls[i], p, n + count_numbered(ls.take(i), p)),
    );
    if ls.len() == 0 {
        assert(whole =~= Seq::<Seq<u8>>::empty());
    } else {
        let rest = ls.drop_first();
        let m = advance(ls[0], p, n);
        lemma_render_lines_indexed(rest, p, m);
        let tail = Seq::new(
            rest.len(),
            |i: int| render_line(rest[i], p, m + count_numbered(rest.take(i), p)),
        );
        assert forall|i: int| 0 <= i < rest.len() implies #[trigger] whole.drop_first()[i]
            == tail[i] by {
            assert(ls.take(i + 1).drop_first() =~= rest.take(i));
            assert(ls.take(i + 1)[0] == ls[0]);
        }
        assert(whole.drop_first() =~= tail);
        assert(ls.take(0) =~= Seq::<Seq<u8>>::empty());
    }
}

proof fn lemma_count_all(ls: Seq<Seq<u8>>)
    ensures
        count_numbered(ls, Numbering::All) == ls.len(),
    decreases ls.len(),
{
    if ls.len() > 0 {
        lemma_count_all(ls.drop_first());
    }
}

proof fn lemma_all_diagnostics_prefix(t: Seq<String>, r: Seq<SourceRead>, j: int)
    requires
        t.len() == r.len(),
        0 <= j <= r.len(),
    ensures
        all_diagnostics(t.take(j), r.take(j)).len() <= all_diagnostics(t, r).len(),
        all_diagnostics(t.take(j), r.take(j)) == all_diagnostics(t, r).take(
            all_diagnostics(t.take(j), r.take(j)).len() as int,
        ),
    decreases r.len(),
{
    let d = all_diagnostics(t, r);
    if j == r.len() {
        assert(t.take(j) =~= t);
        assert(r.take(j) =~= r);
        assert(d.take(d.len() as int) =~= d);
    } else {
        assert(t.take(j) =~= t.drop_last().take(j));
        assert(r.take(j) =~= r.drop_last().take(j));
        lemma_all_diagnostics_prefix(t.drop_last(), r.drop_last(), j);
        let e = all_diagnostics(t.drop_last(), r.drop_last());
        let m = all_diagnostics(t.take(j), r.take(j)).len() as int;
        assert(d.take(m) =~= e.take(m));
    }
}

/// With neither flag set, a run writes every readable source's bytes, in
/// order, unchanged.
pub proof fn law_verbatim_is_concatenation(rs: Seq<SourceRead>)
    ensures
        run_out(policy_of(false, false), rs) == all_bytes(rs),
{
    lemma_verbatim_join(all_lines(rs), 1);
    lemma_join_all_lines(rs);
}

/// With every line numbered, the lines of all sources taken together carry
/// the numbers 1, 2, 3, ... in order, across source boundaries.
pub proof fn law_number_all_consecutive(rs: Seq<SourceRead>)
    ensures
        run_out(policy_of(true, false), rs) == join(
            Seq::new(
                all_lines(rs).len(),
                |i: int| prefix((1 + i) as nat) + all_lines(rs)[i],
            ),
        ),
{
    let ls = all_lines(rs);
    lemma_render_lines_indexed(ls, Numbering::All, 1);
    let a = Seq::new(
        ls.len(),
        |i: int| render_line(ls[i], Numbering::All, 1 + count_numbered(ls.take(i), Numbering::All)),
    );
    let b = Seq::new(ls.len(), |i: int| prefix((1 + i) as nat) + ls[i]);
    assert forall|i: int| 0 <= i < ls.len() implies #[trigger] a[i] == b[i] by {
        lemma_count_all(ls.take(i));
    }
    assert(a =~= b);
}

/// With non-blank numbering, blank lines pass through unnumbered, and each
/// non-blank line carries 1 plus the number of non-blank lines before it,
/// counted across source boundaries.
pub proof fn law_number_nonblank_skips_blanks(rs: Seq<SourceRead>)
    ensures
        run_out(policy_of(false, true), rs) == join(
            Seq::new(
                all_lines(rs).len(),
                |i: int|
                    if is_blank(all_lines(rs)[i]) {
                        all_lines(rs)[i]
                    } else {
                        prefix(1 + count_numbered(all_lines(rs).take(i), Numbering::NonBlank))
                            + all_lines(rs)[i]
                    },
            ),
        ),
{
    let ls = all_lines(rs);
    lemma_render_lines_indexed(ls, Numbering::NonBlank, 1);
    let a = Seq::new(
        ls.len(),
        |i: int|
            render_line(
                ls[i],
                Numbering::NonBlank,
                1 + count_numbered(ls.take(i), Numbering::NonBlank),
            ),
    );
    let b = Seq::new(
        ls.len(),
        |i: int|
            if is_blank(ls[i]) {
                ls[i]
            } else {
                prefix(1 + count_numbered(ls.take(i), Numbering::NonBlank)) + ls[i]
            },
    );
    assert(a =~= b);
}

/// Counting non-blank lines goes up by exactly one at each non-blank line and
/// stays put at each blank one.
pub proof fn law_nonblank_count_step(ls: Seq<Seq<u8>>, i: int)
    requires
        0 <= i < ls.len(),
    ensures
        count_numbered(ls.take(i + 1), Numbering::NonBlank) == count_numbered(
            ls.take(i),
            Numbering::NonBlank,
        ) + if is_blank(ls[i]) {
            0nat
        } else {
            1nat
        },
{
    crate::render::lemma_render_lines_append(ls.take(i), seq![ls[i]], Numbering::NonBlank, 1);
    assert(ls.take(i) + seq![ls[i]] =~= ls.take(i + 1));
    assert(seq![ls[i]].drop_first() =~= Seq::<Seq<u8>>::empty());
    assert(count_numbered(Seq::<Seq<u8>>::empty(), Numbering::NonBlank) == 0);
    assert(count_numbered(seq![ls[i]], Numbering::NonBlank) == if is_blank(ls[i]) {
        0nat
    } else {
        1nat
    });
}

/// Setting both flags behaves as non-blank numbering alone.
pub proof fn law_nonblank_takes_precedence(rs: Seq<SourceRead>)
    ensures
        run_out(policy_of(true, true), rs) == run_out(policy_of(false, true), rs),
{
}

/// A token that cannot be opened adds a diagnostic naming it, and leaves what
/// is written for the other tokens as it would be without it.
pub proof fn law_open_failure_isolated(
    tokens: Seq<String>,
    rs: Seq<SourceRead>,
    i: int,
    p: Numbering,
)
    requires
        tokens.len() == rs.len(),
        0 <= i < rs.len(),
        rs[i] is OpenFailed,
    ensures
        run_out(p, rs) == run_out(p, rs.remove(i)),
        all_diagnostics(tokens, rs).contains(open_failure(tokens[i]@, rs[i]->cause@)),
{
    let front = rs.take(i);
    let back = rs.skip(i + 1);
    assert(rs =~= front + (seq![rs[i]] + back));
    assert(rs.remove(i) =~= front + back);
    lemma_all_lines_append(front, seq![rs[i]] + back);
    lemma_all_lines_append(seq![rs[i]], back);
    lemma_all_lines_append(front, back);
    assert(seq![rs[i]].drop_last() =~= Seq::<SourceRead>::empty());
    assert(seq![rs[i]].last() == rs[i]);
    assert(all_lines(Seq::<SourceRead>::empty()) =~= Seq::<Seq<u8>>::empty());
    assert(all_lines(seq![rs[i]]) =~= Seq::<Seq<u8>>::empty());
    assert(all_lines(seq![rs[i]] + back) =~= all_lines(back));
    assert(all_lines(rs) =~= all_lines(rs.remove(i)));

    lemma_all_diagnostics_prefix(tokens, rs, i + 1);
    let d = all_diagnostics(tokens.take(i + 1), rs.take(i + 1));
    assert(tokens.take(i + 1).drop_last() =~= tokens.take(i));
    assert(rs.take(i + 1).drop_last() =~= rs.take(i));
    let k = d.len() - 1;
    assert(d[k] == open_failure(tokens[i]@, rs[i]->cause@));
    assert(all_diagnostics(tokens, rs)[k] == d[k]);
}

} // verus!
