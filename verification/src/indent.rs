//! The indentation state of one rendering pass.

use vstd::prelude::*;
use vstd::string::StringExecFns;
use crate::config::Config;
use crate::text::indent_text;

verus! {

/// The indentation state of one pass: the indent unit and the nesting
/// depth. Each pass owns its own.
pub struct Indent {
    unit: String,
    /// The indentation of each level entered and not yet left, the
    /// outermost first.
    levels: Vec<String>,
}

/// What an `Indent` stands for.
pub struct IndentView {
    pub unit: Seq<char>,
    pub depth: nat,
}

impl View for Indent {
    type V = IndentView;

    closed spec fn view(&self) -> IndentView {
        IndentView { unit: self.unit@, depth: self.levels@.len() }
    }
}

impl Indent {
    /// Each level entered holds its own indentation.
    pub closed spec fn wf(&self) -> bool {
        forall|i: int|
            0 <= i < self.levels@.len() ==> (#[trigger] self.levels@[i])@ == indent_text(
                self.unit@,
                (i + 1) as nat,
            )
    }

    /// The state at the start of a pass: depth 0.
    pub fn new(cfg: &Config) -> (r: Indent)
        ensures
            r.wf(),
            r@ == (IndentView { unit: cfg.unit(), depth: 0 }),
    {
        Indent { unit: cfg.indent(), levels: Vec::new() }
    }

    /// The nesting depth.
    pub fn depth(&self) -> (d: usize)
        ensures
            d == self@.depth,
    {
        self.levels.len()
    }

    /// One level deeper.
    pub fn enter(&mut self)
        requires
            old(self).wf(),
        ensures
            final(self).wf(),
            final(self)@.unit == old(self)@.unit,
            final(self)@.depth == old(self)@.depth + 1,
    {
        let n: usize = self.levels.len();
        let next = if n == 0 {
            self.unit.clone()
        } else {
            self.levels[n - 1].clone().concat(self.unit.as_str())
        };
        proof {
            assert(indent_text(self.unit@, 1) =~= self.unit@) by {
                assert(indent_text(self.unit@, 0) =~= Seq::<char>::empty());
            }
            assert(next@ == indent_text(self.unit@, (n + 1) as nat));
        }
        self.levels.push(next);
    }

    /// Back to the level that the last `enter` left.
    pub fn leave(&mut self)
        requires
            old(self).wf(),
            old(self)@.depth > 0,
        ensures
            final(self).wf(),
            final(self)@.unit == old(self)@.unit,
            final(self)@.depth == old(self)@.depth - 1,
    {
        self.levels.pop();
    }

    /// Appends the indentation of the current depth to `out`.
    pub fn push_prefix(&self, out: &mut String)
        requires
            self.wf(),
        ensures
            final(out)@ == old(out)@ + indent_text(self@.unit, self@.depth),
    {
        let n: usize = self.levels.len();
        if n > 0 {
            out.append(self.levels[n - 1].as_str());
        } else {
            proof {
                assert(old(out)@ + indent_text(self.unit@, 0) =~= old(out)@);
            }
        }
    }
}

} // verus!
