//! Working on tags.

use vstd::prelude::*;
use crate::cmd::{line2, line3, line4, lines, texts, Tag};
use crate::config::{keyword_keys, position_of, Config};
use crate::errors::{Error, ErrorView};
use crate::text::{
    append_chars, chars_of, rows, same_chars, sort_texts, sorted_texts, string_of,
};
use crate::util::git::{tag_views, GitTag};

verus! {

/// What the tag command is asked to do.
#[derive(Debug, PartialEq, Eq)]
pub enum TagTask {
    /// Show the names of the rules.
    ShowRules,
    /// Delete a tag.
    Delete,
    /// Create a tag.
    Create,
    /// Push a tag.
    Push,
    /// Show the tags.
    Show,
    /// Check a tag out.
    Checkout(String),
}

/// The tag to create.
#[derive(Debug, PartialEq, Eq)]
pub enum NewTag {
    /// The tag that follows the given or the latest one by this rule.
    ByRule(String),
    /// The tag of this name.
    Named(GitTag),
}

impl Tag {
    /// What the command is asked to do; of several switches the first in
    /// this order decides: the rules, delete, create, push.
    pub fn run(&self) -> (r: TagTask)
        ensures
            match r {
                TagTask::ShowRules => self.show_rules,
                TagTask::Delete => !self.show_rules && self.delete,
                TagTask::Create => !self.show_rules && !self.delete && self.create,
                TagTask::Push => !self.show_rules && !self.delete && !self.create && self.push,
                TagTask::Show => !self.show_rules && !self.delete && !self.create && !self.push
                    && self.args.len() == 0,
                TagTask::Checkout(name) => !self.show_rules && !self.delete && !self.create
                    && !self.push && self.args.len() > 0 && name@ == self.args[0]@,
            },
    {
        if self.show_rules {
            TagTask::ShowRules
        } else if self.delete {
            TagTask::Delete
        } else if self.create {
            TagTask::Create
        } else if self.push {
            TagTask::Push
        } else if self.args.len() == 0 {
            TagTask::Show
        } else {
            TagTask::Checkout(self.args[0].clone())
        }
    }

    /// The names of the rules, in the order of dictionaries.
    pub fn rules(cfg: &Config) -> (r: Vec<String>)
        ensures
            sorted_texts(texts(r@)),
            texts(r@).to_multiset() == keyword_keys(cfg.tag_rule@).to_multiset(),
    {
        let ghost keys = keyword_keys(cfg.tag_rule@);
        let mut names: Vec<Vec<char>> = Vec::new();
        let mut i: usize = 0;
        proof {
            assert(rows(names@) =~= keys.take(0));
        }
        while i < cfg.tag_rule.len()
            invariant
                i <= cfg.tag_rule.len(),
                keys == keyword_keys(cfg.tag_rule@),
                rows(names@) == keys.take(i as int),
            decreases cfg.tag_rule.len() - i,
        {
            let ghost before = rows(names@);
            names.push(chars_of(cfg.tag_rule[i].0.as_str()));
            proof {
                assert(rows(names@) =~= before.push(keys[i as int]));
                assert(keys.take(i + 1) =~= keys.take(i as int).push(keys[i as int]));
            }
            i += 1;
        }
        proof {
            assert(keys.take(cfg.tag_rule.len() as int) =~= keys);
        }
        let sorted = sort_texts(&names);
        let mut out: Vec<String> = Vec::new();
        let mut j: usize = 0;
        proof {
            assert(texts(out@) =~= rows(sorted@).take(0));
        }
        while j < sorted.len()
            invariant
                j <= sorted.len(),
                texts(out@) == rows(sorted@).take(j as int),
            decreases sorted.len() - j,
        {
            let ghost before = texts(out@);
            out.push(string_of(&sorted[j]));
            proof {
                let all = rows(sorted@);
                assert(texts(out@) =~= before.push(all[j as int]));
                assert(all.take(j + 1) =~= all.take(j as int).push(all[j as int]));
            }
            j += 1;
        }
        proof {
            assert(rows(sorted@).take(sorted.len() as int) =~= rows(sorted@));
        }
        out
    }

    /// The tag that the arguments name, which must be among `tags`; none
    /// where they name none and the latest tag is meant.
    pub fn get_tag_or_latest(&self, tags: Vec<GitTag>) -> (r: Result<Option<GitTag>, Error>)
        ensures
            match r {
                Ok(None) => self.args.len() == 0,
                Ok(Some(tag)) => self.args.len() > 0 && tag.0@ == self.args[0]@ && tag_views(
                    tags@,
                ).contains(self.args[0]@),
                Err(e) => self.args.len() > 0 && !tag_views(tags@).contains(self.args[0]@) && e@
                    == ErrorView::Message("could not find tag "@ + self.args[0]@),
            },
    {
        if self.args.len() == 0 {
            return Ok(None);
        }
        let wanted = chars_of(self.args[0].as_str());
        let ghost all = tag_views(tags@);
        let mut i: usize = 0;
        while i < tags.len()
            invariant
                i <= tags.len(),
                self.args.len() > 0,
                wanted@ == self.args[0]@,
                all == tag_views(tags@),
                forall|j: int| 0 <= j < i ==> all[j] != wanted@,
            decreases tags.len() - i,
        {
            if same_chars(&chars_of(tags[i].0.as_str()), &wanted) {
                assert(all[i as int] == wanted@);
                return Ok(Some(GitTag(tags[i].0.clone())));
            }
            i += 1;
        }
        let mut text = chars_of("could not find tag ");
        append_chars(&mut text, &wanted);
        Err(Error::Message(string_of(&text)))
    }

    /// The tag to create: by the rule that is named, which must exist; else
    /// the tag that the arguments name, which must be new.
    pub fn create(&self, tags: &Vec<GitTag>, cfg: &Config) -> (r: Result<NewTag, Error>)
        ensures
            match self.rule {
                Some(key) => match position_of(keyword_keys(cfg.tag_rule@), key@) {
                    Some(i) => r matches Ok(NewTag::ByRule(rule)) && rule@ == cfg.tag_rule[i].1@,
                    None => r matches Err(e) && e@ == ErrorView::Message(
                        "could not find rule "@ + key@,
                    ),
                },
                None => if self.args.len() == 0 {
                    r matches Err(e) && e@ == ErrorView::Message("require tag name to create"@)
                } else if tag_views(tags@).contains(self.args[0]@) {
                    r matches Err(e) && e@ == ErrorView::Message(
                        "tag "@ + self.args[0]@ + " is already exists"@,
                    )
                } else {
                    r matches Ok(NewTag::Named(tag)) && tag.0@ == self.args[0]@
                },
            },
    {
        if let Some(key) = &self.rule {
            return match cfg.get_rule(key.as_str()) {
                Some(rule) => Ok(NewTag::ByRule(rule.clone())),
                None => {
                    let mut text = chars_of("could not find rule ");
                    append_chars(&mut text, &chars_of(key.as_str()));
                    Err(Error::Message(string_of(&text)))
                },
            };
        }
        if self.args.len() == 0 {
            return Err(Error::Message("require tag name to create".to_owned()));
        }
        let wanted = chars_of(self.args[0].as_str());
        let ghost all = tag_views(tags@);
        let mut i: usize = 0;
        while i < tags.len()
            invariant
                i <= tags.len(),
                self.rule is None,
                self.args.len() > 0,
                wanted@ == self.args[0]@,
                all == tag_views(tags@),
                forall|j: int| 0 <= j < i ==> all[j] != wanted@,
            decreases tags.len() - i,
        {
            if same_chars(&chars_of(tags[i].0.as_str()), &wanted) {
                assert(all[i as int] == wanted@);
                let mut text = chars_of("tag ");
                append_chars(&mut text, &wanted);
                append_chars(&mut text, &chars_of(" is already exists"));
                return Err(Error::Message(string_of(&text)));
            }
            i += 1;
        }
        Ok(NewTag::Named(GitTag::from_str(self.args[0].as_str())))
    }

    /// What creating `tag` asks git for: the tag, and its push where that
    /// is asked for.
    pub fn create_commands(&self, tag: &GitTag) -> (r: Vec<Vec<String>>)
        ensures
            lines(r@) == if self.push {
                seq![seq!["tag"@, tag.0@], seq!["push"@, "origin"@, "tag"@, tag.0@]]
            } else {
                seq![seq!["tag"@, tag.0@]]
            },
    {
        let mut out: Vec<Vec<String>> = Vec::new();
        out.push(line2("tag", tag.as_str()));
        if self.push {
            out.push(line4("push", "origin", "tag", tag.as_str()));
            proof {
                assert(lines(out@) =~= seq![
                    seq!["tag"@, tag.0@],
                    seq!["push"@, "origin"@, "tag"@, tag.0@],
                ]);
            }
        } else {
            proof {
                assert(lines(out@) =~= seq![seq!["tag"@, tag.0@]]);
            }
        }
        out
    }

    /// What deleting `tag` asks git for: the deletion, and its push where
    /// that is asked for.
    pub fn delete(&self, tag: &GitTag) -> (r: Vec<Vec<String>>)
        ensures
            lines(r@) == if self.push {
                seq![seq!["tag"@, "-d"@, tag.0@], seq!["push"@, "--delete"@, "origin"@, tag.0@]]
            } else {
                seq![seq!["tag"@, "-d"@, tag.0@]]
            },
    {
        let mut out: Vec<Vec<String>> = Vec::new();
        out.push(line3("tag", "-d", tag.as_str()));
        if self.push {
            out.push(line4("push", "--delete", "origin", tag.as_str()));
            proof {
                assert(lines(out@) =~= seq![
                    seq!["tag"@, "-d"@, tag.0@],
                    seq!["push"@, "--delete"@, "origin"@, tag.0@],
                ]);
            }
        } else {
            proof {
                assert(lines(out@) =~= seq![seq!["tag"@, "-d"@, tag.0@]]);
            }
        }
        out
    }

    /// What pushing `tag` asks git for.
    pub fn push(tag: &GitTag) -> (r: Vec<String>)
        ensures
            texts(r@) == seq!["push"@, "origin"@, "tag"@, tag.0@],
    {
        line4("push", "origin", "tag", tag.as_str())
    }
}

} // verus!
