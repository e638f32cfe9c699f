//! What the answers of the programs that are run mean: the exit of the
//! interactive selector and of a command.

use vstd::prelude::*;
use crate::config::{lemma_position_from, lemma_position_is, position_of};
use crate::errors::{Error, ErrorView};
use crate::text::{
    append_chars, chars_of, same_chars, string_of, texts, trim_space, trim_space_chars,
};

verus! {

/// The interactive selector: the user is shown keys and chooses one.
pub struct Fzf;

/// The commands that are run.
pub struct Shell;

/// Each of `keys` followed by a line break, from position `upto` back.
pub open spec fn key_lines(keys: Seq<Seq<char>>, upto: int) -> Seq<char>
    decreases upto,
{
    if upto <= 0 {
        Seq::empty()
    } else {
        key_lines(keys, upto - 1) + keys[upto - 1] + seq!['\n']
    }
}

/// What the exit of the selector means for the keys it was given. Exit 0
/// with one of the keys printed is the choice of that key, the first of
/// several equal ones; exit 1 is no match, exit 2 a failure of the selector,
/// exit 130 a cancellation; another exit from 128 to 254, or none, is a
/// selector that was ended from outside.
pub open spec fn selection(keys: Seq<Seq<char>>, code: Option<i32>, output: Seq<char>) -> Result<
    int,
    ErrorView,
> {
    match code {
        Some(c) => if c == 0 {
            match position_of(keys, trim_space(output)) {
                Some(i) => Ok(i),
                None => Err(ErrorView::KeyNotFound(trim_space(output))),
            }
        } else if c == 1 {
            Err(ErrorView::NoMatch)
        } else if c == 2 {
            Err(ErrorView::SelectorFailed)
        } else if c == 130 {
            Err(ErrorView::SelectionCancelled)
        } else if 128 <= c <= 254 {
            Err(ErrorView::SelectorTerminated)
        } else {
            Err(ErrorView::SelectorUnknown)
        },
        None => Err(ErrorView::SelectorTerminated),
    }
}

impl Fzf {
    /// What is handed to the selector: each key on a line of its own.
    pub fn input(keys: &Vec<String>) -> (r: String)
        ensures
            r@ == key_lines(texts(keys@), keys.len() as int),
    {
        let ghost all = texts(keys@);
        let mut out: Vec<char> = Vec::new();
        let mut i: usize = 0;
        while i < keys.len()
            invariant
                i <= keys.len(),
                all == texts(keys@),
                out@ == key_lines(all, i as int),
            decreases keys.len() - i,
        {
            append_chars(&mut out, &chars_of(keys[i].as_str()));
            out.push('\n');
            proof {
                assert(out@ =~= key_lines(all, i as int) + all[i as int] + seq!['\n']);
            }
            i += 1;
        }
        string_of(&out)
    }

    /// The position of the key that the user chose, or why there is none,
    /// from the exit code of the selector and what it printed.
    pub fn query(keys: &Vec<String>, code: Option<i32>, output: &str) -> (r: Result<usize, Error>)
        ensures
            match r {
                Ok(i) => selection(texts(keys@), code, output@) == Ok::<int, ErrorView>(
                    i as int,
                ) && i < keys.len(),
                Err(e) => selection(texts(keys@), code, output@) == Err::<int, ErrorView>(e@),
            },
    {
        let c = match code {
            Some(c) => c,
            None => {
                return Err(Error::SelectorTerminated);
            },
        };
        if c == 0 {
            let chosen = trim_space_chars(&chars_of(output));
            let ghost all = texts(keys@);
            let mut i: usize = 0;
            while i < keys.len()
                invariant
                    i <= keys.len(),
                    code == Some(0i32),
                    all == texts(keys@),
                    chosen@ == trim_space(output@),
                    forall|j: int| 0 <= j < i ==> all[j] != chosen@,
                decreases keys.len() - i,
            {
                if same_chars(&chars_of(keys[i].as_str()), &chosen) {
                    proof {
                        lemma_position_is(all, chosen@, i as int);
                    }
                    return Ok(i);
                }
                i += 1;
            }
            proof {
                lemma_position_from(all, chosen@, 0);
            }
            Err(Error::KeyNotFound(string_of(&chosen)))
        } else if c == 1 {
            Err(Error::NoMatch)
        } else if c == 2 {
            Err(Error::SelectorFailed)
        } else if c == 130 {
            Err(Error::SelectionCancelled)
        } else if 128 <= c && c <= 254 {
            Err(Error::SelectorTerminated)
        } else {
            Err(Error::SelectorUnknown)
        }
    }
}

impl Shell {
    /// What a command comes to: what it printed, without white space at
    /// either end, where it ended with exit 0, and a failure else.
    pub fn exec(code: Option<i32>, output: &str) -> (r: Result<String, Error>)
        ensures
            match r {
                Ok(text) => code == Some(0i32) && text@ == trim_space(output@),
                Err(e) => code != Some(0i32) && e@ == ErrorView::CommandFailed,
            },
    {
        match code {
            Some(0) => Ok(string_of(&trim_space_chars(&chars_of(output)))),
            _ => Err(Error::CommandFailed),
        }
    }

    /// The line that shows a command: the program and its arguments, one
    /// blank between each two.
    pub fn print_cmd(program: &str, args: &Vec<String>) -> (r: String)
        ensures
            r@ == crate::text::join_text(seq![program@] + texts(args@), seq![' ']),
    {
        let mut parts: Vec<Vec<char>> = Vec::new();
        parts.push(chars_of(program));
        let mut i: usize = 0;
        while i < args.len()
            invariant
                i <= args.len(),
                parts@.map_values(|p: Vec<char>| p@) == seq![program@] + texts(args@).take(
                    i as int,
                ),
            decreases args.len() - i,
        {
            let ghost before = parts@;
            parts.push(chars_of(args[i].as_str()));
            proof {
                assert(parts@.map_values(|p: Vec<char>| p@) =~= before.map_values(
                    |p: Vec<char>| p@,
                ).push(args[i as int]@));
                assert(seq![program@] + texts(args@).take(i + 1) =~= (seq![program@]
                    + texts(args@).take(i as int)).push(args[i as int]@));
            }
            i += 1;
        }
        proof {
            assert(texts(args@).take(args.len() as int) =~= texts(args@));
        }
        let mut blank: Vec<char> = Vec::new();
        blank.push(' ');
        proof {
            assert(blank@ =~= seq![' ']);
        }
        string_of(&crate::text::join_chars(&parts, &blank))
    }
}

} // verus!
