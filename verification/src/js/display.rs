use vstd::prelude::*;
use vstd::string::StringExecFns;

use crate::js::layout::indentation;

verus! {

/// The margin of a level.
pub fn margin(level: usize) -> (text: String)
    ensures
        text@ == indentation(level as nat),
{
    let mut text = String::new();
    let mut done: usize = 0;
    proof {
        assert(text@ =~= indentation(0));
    }
    while done < level
        invariant
            done <= level,
            text@ == indentation(done as nat),
        decreases level - done,
    {
        text.append("    ");
        done += 1;
    }
    text
}

/// A node of the target tree together with the level at which its text is
/// indented.
pub struct Display<'a, T: 'a> {
    pub indent: usize,
    pub value: &'a T,
}

impl<'a, T: 'a> Display<'a, T> {
    /// `value` at the left margin.
    pub fn new(value: &'a T) -> (shown: Self)
        ensures
            shown.indent == 0,
            shown.value == value,
    {
        Display { indent: 0, value }
    }

    /// Appends the indentation of this level to `out`.
    pub fn write_indent(&self, out: &mut String)
        ensures
            final(out)@ == old(out)@ + indentation(self.indent as nat),
    {
        let text = margin(self.indent);
        out.append(text.as_str());
    }

    /// `value` at the level of `self`.
    pub fn with<'b, U: 'b>(&self, value: &'b U) -> (shown: Display<'b, U>)
        ensures
            shown.indent == self.indent,
            shown.value == value,
    {
        Display { indent: self.indent, value }
    }

    /// `value` one level deeper than `self`.
    pub fn with_indented<'b, U: 'b>(&self, value: &'b U) -> (shown: Display<'b, U>)
        requires
            self.indent < usize::MAX,
        ensures
            shown.indent == self.indent + 1,
            shown.value == value,
    {
        Display { indent: self.indent + 1, value }
    }
}

} // verus!
