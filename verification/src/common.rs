//! Indented printing of syntax trees: a printer that records lines, each
//! indented by two spaces per level, and the trait of printable trees.

use vstd::prelude::*;
use crate::text::{owned, push_str};

verus! {

/// Two spaces per indentation level.
pub open spec fn pad(level: nat) -> Seq<char>
    decreases level,
{
    if level == 0 {
        Seq::empty()
    } else {
        pad((level - 1) as nat) + "  "@
    }
}

/// An indentation level and the lines printed so far.
#[derive(Debug)]
pub struct PrettyPrinter {
    pub indent_level: usize,
    lines: Vec<String>,
}

impl PrettyPrinter {
    /// The lines printed so far, each with its indentation.
    pub closed spec fn printed(&self) -> Seq<Seq<char>> {
        self.lines@.map_values(|s: String| s@)
    }

    /// The indentation level.
    pub closed spec fn level(&self) -> nat {
        self.indent_level as nat
    }

    /// The level is at most `usize::MAX`.
    pub proof fn lemma_level_bounded(&self)
        ensures
            self.level() <= usize::MAX,
    {
    }

    /// The indentation level, to test before `indent`.
    pub fn current_level(&self) -> (r: usize)
        ensures
            r == self.level(),
    {
        self.indent_level
    }

    /// A printer at level zero that has printed nothing.
    pub fn new() -> (r: Self)
        ensures
            r.level() == 0,
            r.printed() == Seq::<Seq<char>>::empty(),
    {
        let r = PrettyPrinter { indent_level: 0, lines: Vec::new() };
        assert(r.printed() =~= Seq::<Seq<char>>::empty());
        r
    }

    /// One level deeper.
    pub fn indent(&mut self)
        requires
            old(self).level() < usize::MAX,
        ensures
            final(self).level() == old(self).level() + 1,
            final(self).printed() == old(self).printed(),
    {
        self.indent_level = self.indent_level + 1;
    }

    /// One level shallower, but not below zero.
    pub fn unindent(&mut self)
        ensures
            final(self).level() == if old(self).level() > 0 {
                old(self).level() - 1
            } else {
                0
            },
            final(self).printed() == old(self).printed(),
    {
        if self.indent_level > 0 {
            self.indent_level = self.indent_level - 1;
        }
    }

    /// The indentation of the current level.
    pub fn prefix(&self) -> (r: String)
        ensures
            r@ == pad(self.level()),
    {
        let mut r = owned("");
        proof {
            reveal_strlit("");
        }
        let mut k: usize = 0;
        while k < self.indent_level
            invariant
                k <= self.indent_level,
                r@ == pad(k as nat),
            decreases self.indent_level - k,
        {
            push_str(&mut r, "  ");
            k += 1;
        }
        r
    }

    /// Prints `text` on a line of its own at the current level.
    pub fn writeln(&mut self, text: &str)
        ensures
            final(self).printed() == old(self).printed().push(pad(old(self).level()) + text@),
            final(self).level() == old(self).level(),
    {
        let mut line = self.prefix();
        push_str(&mut line, text);
        let ghost before = self.lines@;
        self.lines.push(line);
        assert(self.printed() =~= before.map_values(|s: String| s@).push(pad(old(self).level()) + text@));
    }

    /// The lines printed so far, each with its indentation.
    pub fn lines(&self) -> (r: &Vec<String>)
        ensures
            r@.map_values(|s: String| s@) == self.printed(),
    {
        &self.lines
    }
}

/// A tree that prints itself as indented lines.
pub trait AstNode {
    /// How many levels of indentation printing the tree may add.
    spec fn print_depth(&self) -> nat;

    /// Prints the tree at the printer's level.
    fn pretty_print(&self, printer: &mut PrettyPrinter)
        requires
            old(printer).level() + self.print_depth() <= usize::MAX;
}

} // verus!
