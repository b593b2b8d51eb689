use vstd::prelude::*;

use crate::config::Config;
use crate::lines::lines;
use crate::render::{
    count_numbered, lemma_count_numbered_bound, lemma_render_lines_append, render, render_lines,
    Numbering,
};

verus! {

/// What became of one path token once its source was resolved and read.
#[derive(Debug)]
pub enum SourceRead {
    /// The source was opened; `bytes` is what was read from it, and `error`
    /// the cause when reading stopped before the end.
    Read { bytes: Vec<u8>, error: Option<String> },
    /// The source could not be opened, for the given cause.
    OpenFailed { cause: String },
}

/// What a run emits: bytes for standard output and one diagnostic per failure.
#[derive(Debug)]
pub struct RunOutput {
    pub out: Vec<u8>,
    pub diagnostics: Vec<String>,
}

/// The diagnostic for a token that could not be opened.
pub open spec fn open_failure(token: Seq<char>, cause: Seq<char>) -> Seq<char> {
    "Failed to open "@ + token + ": "@ + cause
}

/// The diagnostic for a token whose reading stopped early.
pub open spec fn read_failure(token: Seq<char>, cause: Seq<char>) -> Seq<char> {
    "Failed to read "@ + token + ": "@ + cause
}

/// The lines one source contributes.
pub open spec fn source_lines(r: SourceRead) -> Seq<Seq<u8>> {
    match r {
        SourceRead::Read { bytes, .. } => lines(bytes@),
        SourceRead::OpenFailed { .. } => Seq::empty(),
    }
}

/// The bytes one source contributes.
pub open spec fn source_bytes(r: SourceRead) -> Seq<u8> {
    match r {
        SourceRead::Read { bytes, .. } => bytes@,
        SourceRead::OpenFailed { .. } => Seq::empty(),
    }
}

/// The diagnostics one source gives rise to.
pub open spec fn source_diagnostics(token: Seq<char>, r: SourceRead) -> Seq<Seq<char>> {
    match r {
        SourceRead::Read { error, .. } => match error {
            Some(cause) => seq![read_failure(token, cause@)],
            None => Seq::empty(),
        },
        SourceRead::OpenFailed { cause } => seq![open_failure(token, cause@)],
    }
}

/// The lines of all sources, one source after another.
pub open spec fn all_lines(rs: Seq<SourceRead>) -> Seq<Seq<u8>>
    decreases rs.len(),
{
    if rs.len() == 0 {
        Seq::empty()
    } else {
        all_lines(rs.drop_last()) + source_lines(rs.last())
    }
}

/// The bytes of all sources, one source after another.
pub open spec fn all_bytes(rs: Seq<SourceRead>) -> Seq<u8>
    decreases rs.len(),
{
    if rs.len() == 0 {
        Seq::empty()
    } else {
        all_bytes(rs.drop_last()) + source_bytes(rs.last())
    }
}

/// The diagnostics of all sources, in the order of their tokens.
pub open spec fn all_diagnostics(tokens: Seq<String>, rs: Seq<SourceRead>) -> Seq<Seq<char>>
    decreases rs.len(),
{
    if rs.len() == 0 || tokens.len() == 0 {
        Seq::empty()
    } else {
        all_diagnostics(tokens.drop_last(), rs.drop_last()) + source_diagnostics(
            tokens.last()@,
            rs.last(),
        )
    }
}

/// What a run writes to standard output.
pub open spec fn run_out(p: Numbering, rs: Seq<SourceRead>) -> Seq<u8> {
    render_lines(all_lines(rs), p, 1)
}

/// The texts of a sequence of strings.
pub open spec fn texts(v: Seq<String>) -> Seq<Seq<char>> {
    v.map_values(|s: String| s@)
}

pub proof fn lemma_total_prefix(rs: Seq<SourceRead>, i: int)
    requires
        0 <= i <= rs.len(),
    ensures
        all_bytes(rs.take(i)).len() <= all_bytes(rs).len(),
    decreases rs.len(),
{
    if i < rs.len() {
        assert(rs.take(i) =~= rs.drop_last().take(i));
        lemma_total_prefix(rs.drop_last(), i);
    } else {
        assert(rs.take(i) =~= rs);
    }
}

/// Emits one source: its rendered lines onto `out` and its diagnostic, if
/// any, onto `diagnostics`. `counter` runs on from the sources before.
pub fn process_source(
    token: &String,
    source: &SourceRead,
    policy: Numbering,
    counter: &mut u64,
    out: &mut Vec<u8>,
    diagnostics: &mut Vec<String>,
)
    requires
        *old(counter) + source_bytes(*source).len() <= u64::MAX,
    ensures
        final(out)@ == old(out)@ + render_lines(source_lines(*source), policy, *old(counter) as nat),
        *final(counter) == *old(counter) + count_numbered(source_lines(*source), policy),
        texts(final(diagnostics)@) == texts(old(diagnostics)@) + source_diagnostics(token@, *source),
{
    match source {
        SourceRead::Read { bytes, error } => {
            render(bytes.as_slice(), policy, counter, out);
            match error {
                Some(cause) => {
                    let mut msg: String = String::new();
                    msg.append("Failed to read ");
                    msg.append(token.as_str());
                    msg.append(": ");
                    msg.append(cause.as_str());
                    diagnostics.push(msg);
                },
                None => {},
            }
        },
        SourceRead::OpenFailed { cause } => {
            let mut msg: String = String::new();
            msg.append("Failed to open ");
            msg.append(token.as_str());
            msg.append(": ");
            msg.append(cause.as_str());
            diagnostics.push(msg);
            assert(lines(Seq::<u8>::empty()) =~= Seq::<Seq<u8>>::empty());
        },
    }
    assert(texts(diagnostics@) =~= texts(old(diagnostics)@) + source_diagnostics(token@, *source));
}

/// Streams every token's source, in order, with one counter for the whole
/// run starting at 1. A source that failed adds its diagnostic and nothing
/// else; the sources after it are processed as usual.
pub fn run(config: &Config, sources: &Vec<SourceRead>) -> (r: RunOutput)
    requires
        sources@.len() == config.tokens().len(),
        all_bytes(sources@).len() < u64::MAX,
    ensures
        r.out@ == run_out(config.spec_policy(), sources@),
        texts(r.diagnostics@) == all_diagnostics(config.tokens(), sources@),
{
    let policy = config.policy();
    let files = config.files();
    let mut counter: u64 = 1;
    let mut out: Vec<u8> = Vec::new();
    let mut diagnostics: Vec<String> = Vec::new();
    let mut i: usize = 0;
    assert(sources@.take(0) =~= Seq::<SourceRead>::empty());
    assert(files@.take(0) =~= Seq::<String>::empty());
    while i < sources.len()
        invariant
            i <= sources@.len(),
            sources@.len() == files@.len(),
            files@ == config.tokens(),
            policy == config.spec_policy(),
            all_bytes(sources@).len() < u64::MAX,
            out@ == render_lines(all_lines(sources@.take(i as int)), policy, 1),
            counter == 1 + count_numbered(all_lines(sources@.take(i as int)), policy),
            counter <= 1 + all_bytes(sources@.take(i as int)).len(),
            texts(diagnostics@) == all_diagnostics(files@.take(i as int), sources@.take(i as int)),
        decreases sources@.len() - i,
    {
        let ghost prev = sources@.take(i as int);
        let ghost next = sources@.take(i + 1);
        proof {
            assert(next.drop_last() =~= prev);
            assert(files@.take(i + 1).drop_last() =~= files@.take(i as int));
            lemma_total_prefix(sources@, i + 1);
            lemma_count_numbered_bound(source_bytes(sources@[i as int]), policy);
        }
        process_source(&files[i], &sources[i], policy, &mut counter, &mut out, &mut diagnostics);
        proof {
            lemma_render_lines_append(all_lines(prev), source_lines(sources@[i as int]), policy, 1);
        }
        i = i + 1;
    }
    assert(sources@.take(i as int) =~= sources@);
    assert(files@.take(i as int) =~= files@);
    RunOutput { out, diagnostics }
}

} // verus!
