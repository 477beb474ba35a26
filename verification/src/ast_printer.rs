//! The printer of the first-generation syntax tree: it records lines, each
//! indented by two spaces per level; going out of level zero is not allowed.

use vstd::prelude::*;
use crate::common::pad;
use crate::text::{owned, push_str};

verus! {

/// An indentation level and the lines printed so far.
#[derive(Debug)]
pub struct PrettyPrinter {
    pub indent_level: usize,
    lines: Vec<String>,
}

impl PrettyPrinter {
    /// The lines printed so far, each with its indentation.
    pub closed spec fn printed(&self) -> Seq<Seq<char>> {
        self.lines@.map_values(|s: String| s@)
    }

    /// The indentation level.
    pub closed spec fn level(&self) -> nat {
        self.indent_level as nat
    }

    /// A printer at level zero that has printed nothing.
    pub fn new() -> (r: Self)
        ensures
            r.level() == 0,
            r.printed() == Seq::<Seq<char>>::empty(),
    {
        let r = PrettyPrinter { indent_level: 0, lines: Vec::new() };
        assert(r.printed() =~= Seq::<Seq<char>>::empty());
        r
    }

    /// One level deeper.
    pub fn indent(&mut self)
        requires
            old(self).level() < usize::MAX,
        ensures
            final(self).level() == old(self).level() + 1,
            final(self).printed() == old(self).printed(),
    {
        self.indent_level = self.indent_level + 1;
    }

    /// One level shallower.
    pub fn unindent(&mut self)
        requires
            old(self).level() > 0,
        ensures
            final(self).level() == old(self).level() - 1,
            final(self).printed() == old(self).printed(),
    {
        self.indent_level = self.indent_level - 1;
    }

    /// The indentation of the current level.
    pub fn prefix(&self) -> (r: String)
        ensures
            r@ == pad(self.level()),
    {
        let mut r = owned("");
        proof {
            reveal_strlit("");
        }
        let mut k: usize = 0;
        while k < self.indent_level
            invariant
                k <= self.indent_level,
                r@ == pad(k as nat),
            decreases self.indent_level - k,
        {
            push_str(&mut r, "  ");
            k += 1;
        }
        r
    }

    /// Prints `text` on a line of its own at the current level.
    pub fn writeln(&mut self, text: &str)
        ensures
            final(self).printed() == old(self).printed().push(pad(old(self).level()) + text@),
            final(self).level() == old(self).level(),
    {
        let mut line = self.prefix();
        push_str(&mut line, text);
        let ghost before = self.lines@;
        self.lines.push(line);
        assert(self.printed() =~= before.map_values(|s: String| s@).push(pad(old(self).level()) + text@));
    }

    /// The lines printed so far, each with its indentation.
    pub fn lines(&self) -> (r: &Vec<String>)
        ensures
            r@.map_values(|s: String| s@) == self.printed(),
    {
        &self.lines
    }
}

} // verus!
