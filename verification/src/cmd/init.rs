//! The script that sets the shell up.

use vstd::prelude::*;
use crate::cmd::Init;
use crate::text::{chars_of, replace_chars, replace_text, string_of};

verus! {

pub const DEFAULT_CMD: &'static str = "gz";

pub const DEFAULT_HOME: &'static str = "zz";

pub const DEFAULT_JUMP: &'static str = "zj";

/// The text of an option, or the default in its place.
pub open spec fn name_or(given: Option<String>, default: Seq<char>) -> Seq<char> {
    match given {
        Some(name) => name@,
        None => default,
    }
}

impl Init {
    /// The script made of `template`: `{{CMD}}`, `{{HOME_CMD}}` and
    /// `{{JUMP_CMD}}` are replaced, in this order, by the names of the
    /// commands.
    pub fn run(&self, template: &str) -> (r: String)
        ensures
            r@ == replace_text(
                replace_text(
                    replace_text(template@, "{{CMD}}"@, name_or(self.cmd, DEFAULT_CMD@)),
                    "{{HOME_CMD}}"@,
                    name_or(self.home_cmd, DEFAULT_HOME@),
                ),
                "{{JUMP_CMD}}"@,
                name_or(self.jump_cmd, DEFAULT_JUMP@),
            ),
    {
        let cmd = match &self.cmd {
            Some(s) => chars_of(s.as_str()),
            None => chars_of(DEFAULT_CMD),
        };
        let home = match &self.home_cmd {
            Some(s) => chars_of(s.as_str()),
            None => chars_of(DEFAULT_HOME),
        };
        let jump = match &self.jump_cmd {
            Some(s) => chars_of(s.as_str()),
            None => chars_of(DEFAULT_JUMP),
        };
        let first = replace_chars(&chars_of(template), &chars_of("{{CMD}}"), &cmd);
        let second = replace_chars(&first, &chars_of("{{HOME_CMD}}"), &home);
        let third = replace_chars(&second, &chars_of("{{JUMP_CMD}}"), &jump);
        string_of(&third)
    }
}

} // verus!
