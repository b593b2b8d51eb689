use vstd::prelude::*;

use crate::render::Numbering;

verus! {

/// Which policy two flags select: `number_nonblank` wins over `number_all`.
pub open spec fn policy_of(number_all: bool, number_nonblank: bool) -> Numbering {
    if number_nonblank {
        Numbering::NonBlank
    } else if number_all {
        Numbering::All
    } else {
        Numbering::Verbatim
    }
}

/// The path token that stands for standard input.
pub open spec fn stdin_token() -> Seq<char> {
    seq!['-']
}

/// Whether `token` names standard input rather than a path.
pub fn reads_stdin(token: &String) -> (r: bool)
    ensures
        r == (token@ == stdin_token()),
{
    let dash: String = "-".to_owned();
    proof {
        reveal_strlit("-");
        assert(dash@ =~= stdin_token());
    }
    token.eq(&dash)
}

/// What one run is asked to do: the path tokens, in order, and the two
/// numbering flags.
#[derive(Debug)]
pub struct Config {
    files: Vec<String>,
    number_lines: bool,
    number_nonblank_lines: bool,
}

impl Config {
    /// The path tokens, in order.
    pub closed spec fn tokens(&self) -> Seq<String> {
        self.files@
    }

    /// Whether every line is to be numbered.
    pub closed spec fn number_all(&self) -> bool {
        self.number_lines
    }

    /// Whether non-blank lines are to be numbered.
    pub closed spec fn number_nonblank(&self) -> bool {
        self.number_nonblank_lines
    }

    /// The policy this configuration selects.
    pub open spec fn spec_policy(&self) -> Numbering {
        policy_of(self.number_all(), self.number_nonblank())
    }

    /// Builds a configuration; with no path token, standard input (`-`) is read.
    pub fn new(files: Vec<String>, number_lines: bool, number_nonblank_lines: bool) -> (r: Config)
        ensures
            files@.len() > 0 ==> r.tokens() == files@,
            files@.len() == 0 ==> r.tokens().len() == 1 && r.tokens()[0]@ == stdin_token(),
            r.number_all() == number_lines,
            r.number_nonblank() == number_nonblank_lines,
    {
        let mut files = files;
        if files.len() == 0 {
            let dash: String = "-".to_owned();
            proof {
                reveal_strlit("-");
            }
            files.push(dash);
        }
        Config { files, number_lines, number_nonblank_lines }
    }

    pub fn files(&self) -> (r: &Vec<String>)
        ensures
            r@ == self.tokens(),
    {
        &self.files
    }

    pub fn number_lines(&self) -> (r: bool)
        ensures
            r == self.number_all(),
    {
        self.number_lines
    }

    pub fn number_nonblank_lines(&self) -> (r: bool)
        ensures
            r == self.number_nonblank(),
    {
        self.number_nonblank_lines
    }

    /// The numbering policy: non-blank numbering takes precedence over
    /// numbering every line.
    pub fn policy(&self) -> (p: Numbering)
        ensures
            p == self.spec_policy(),
    {
        if self.number_nonblank_lines {
            Numbering::NonBlank
        } else if self.number_lines {
            Numbering::All
        } else {
            Numbering::Verbatim
        }
    }
}

} // verus!
