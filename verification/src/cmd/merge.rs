//! Creating a merge request.

use vstd::prelude::*;
use crate::api::MergeOption;
use crate::cmd::Merge;
use crate::errors::{Error, ErrorView};
use crate::text::{
    chars_of, join_chars, join_text, rows, same_chars, slice_of, split_chars_on, split_text,
    string_of, trim_space, trim_space_chars,
};

verus! {

/// The message for a merge without a title.
pub const TITLE_EMPTY: &'static str = "merge title cannot be empty";

/// Whether a line, without white space at its ends, is a title line: it
/// begins with `#`.
pub open spec fn is_title_line(line: Seq<char>) -> bool {
    trim_space(line).len() > 0 && trim_space(line)[0] == '#'
}

/// The title that the first `upto` lines give: what follows the `#` of the
/// last title line among them, without white space at its ends.
pub open spec fn title_of(lines: Seq<Seq<char>>, upto: int) -> Option<Seq<char>>
    decreases upto,
{
    if upto <= 0 {
        None
    } else if is_title_line(lines[upto - 1]) {
        Some(trim_space(trim_space(lines[upto - 1]).skip(1)))
    } else {
        title_of(lines, upto - 1)
    }
}

/// The lines of the body among the first `upto`: those that follow the
/// first title line and are no title lines themselves, each without white
/// space at its ends.
pub open spec fn body_lines(lines: Seq<Seq<char>>, upto: int) -> Seq<Seq<char>>
    decreases upto,
{
    if upto <= 0 {
        Seq::empty()
    } else if !is_title_line(lines[upto - 1]) && title_of(lines, upto - 1) is Some {
        body_lines(lines, upto - 1).push(trim_space(lines[upto - 1]))
    } else {
        body_lines(lines, upto - 1)
    }
}

/// The title and the body that an edited text gives, where it has a title.
pub open spec fn parsed_input(edited: Seq<char>) -> Option<(Seq<char>, Seq<char>)> {
    let lines = split_text(edited, '\n');
    match title_of(lines, lines.len() as int) {
        None => None,
        Some(title) => if title.len() == 0 {
            None
        } else {
            Some((title, trim_space(join_text(body_lines(lines, lines.len() as int), seq!['\n']))))
        },
    }
}

impl Merge {
    /// The title and the body of a merge from the text that the user
    /// edited: the title is what follows `#` on the last line that begins
    /// with it, the body is made of the other lines after the first title.
    /// A title is asked for.
    pub fn input(edited: &str) -> (r: Result<(String, String), Error>)
        ensures
            match r {
                Ok((title, body)) => parsed_input(edited@) == Some((title@, body@)),
                Err(e) => parsed_input(edited@) is None && e@ == ErrorView::Message(TITLE_EMPTY@),
            },
    {
        let lines = split_chars_on(&chars_of(edited), '\n');
        let ghost all = split_text(edited@, '\n');
        let mut title: Option<Vec<char>> = None;
        let mut body: Vec<Vec<char>> = Vec::new();
        let mut i: usize = 0;
        proof {
            assert(rows(body@) =~= body_lines(all, 0));
        }
        while i < lines.len()
            invariant
                i <= lines.len(),
                all == rows(lines@),
                match title {
                    Some(t) => title_of(all, i as int) == Some(t@),
                    None => title_of(all, i as int) is None,
                },
                rows(body@) == body_lines(all, i as int),
            decreases lines.len() - i,
        {
            let line = trim_space_chars(&lines[i]);
            let ghost before = rows(body@);
            if line.len() > 0 && line[0] == '#' {
                let rest = slice_of(&line, 1, line.len());
                proof {
                    assert(rest@ =~= line@.skip(1));
                }
                title = Some(trim_space_chars(&rest));
            } else if title.is_some() {
                body.push(line);
                proof {
                    assert(rows(body@) =~= before.push(trim_space(all[i as int])));
                }
            }
            i += 1;
        }
        let title = match title {
            Some(t) => t,
            None => {
                return Err(Error::Message(TITLE_EMPTY.to_owned()));
            },
        };
        if title.len() == 0 {
            return Err(Error::Message(TITLE_EMPTY.to_owned()));
        }
        let mut sep: Vec<char> = Vec::new();
        sep.push('\n');
        proof {
            assert(sep@ =~= seq!['\n']);
        }
        let joined = join_chars(&body, &sep);
        Ok((string_of(&title), string_of(&trim_space_chars(&joined))))
    }

    /// The merge of the branches that the arguments name, with the given
    /// branches where they name none.
    pub fn options(&self, repo: &str, default_target: &str, current: &str) -> (r: MergeOption)
        ensures
            r.repo@ == repo@,
            r.upstream is None,
            r.title@.len() == 0,
            r.body@.len() == 0,
            r.target@ == match self.target {
                Some(t) => t@,
                None => default_target@,
            },
            r.source@ == match self.source {
                Some(s) => s@,
                None => current@,
            },
    {
        let target = match &self.target {
            Some(t) => t.clone(),
            None => default_target.to_owned(),
        };
        let source = match &self.source {
            Some(s) => s.clone(),
            None => current.to_owned(),
        };
        MergeOption {
            repo: repo.to_owned(),
            upstream: None,
            title: String::new(),
            body: String::new(),
            source,
            target,
        }
    }

    /// The merge with its upstream set; a branch cannot be merged into
    /// itself within one repository.
    pub fn run(opts: MergeOption, upstream: Option<String>) -> (r: Result<MergeOption, Error>)
        ensures
            match r {
                Ok(ready) => ready.upstream == upstream && ready.repo == opts.repo && ready.title
                    == opts.title && ready.body == opts.body && ready.source == opts.source
                    && ready.target == opts.target && (upstream is Some || opts.source@
                    != opts.target@),
                Err(e) => upstream is None && opts.source@ == opts.target@ && e@
                    == ErrorView::Message("could not merge myself"@),
            },
    {
        if upstream.is_none() && same_chars(
            &chars_of(opts.source.as_str()),
            &chars_of(opts.target.as_str()),
        ) {
            return Err(Error::Message("could not merge myself".to_owned()));
        }
        Ok(
            MergeOption {
                repo: opts.repo,
                upstream,
                title: opts.title,
                body: opts.body,
                source: opts.source,
                target: opts.target,
            },
        )
    }

    /// The merge with the title and the body that the user gave.
    pub fn create(opts: MergeOption, title: String, body: String) -> (r: MergeOption)
        ensures
            r.title == title,
            r.body == body,
            r.repo == opts.repo,
            r.upstream == opts.upstream,
            r.source == opts.source,
            r.target == opts.target,
    {
        MergeOption {
            repo: opts.repo,
            upstream: opts.upstream,
            title,
            body,
            source: opts.source,
            target: opts.target,
        }
    }
}

} // verus!
