use vstd::prelude::*;

use crate::formats::ColorFormat;

verus! {

/// The color being edited and the color it started from.
#[derive(Clone, Copy, Debug, PartialEq, Eq)]
pub struct Colors<T> {
    pub prev_color: T,
    pub color: T,
}

impl<T: Copy> Colors<T> {
    /// Both the current and the previous color set to `color`.
    pub fn new(color: T) -> (r: Colors<T>)
        ensures
            r.prev_color == color,
            r.color == color,
    {
        Colors { prev_color: color, color }
    }

    /// Replaces the previous color where `prev` is set, else the current one.
    pub fn assign(&mut self, color: T, prev: bool)
        ensures
            prev ==> final(self).prev_color == color && final(self).color == old(self).color,
            !prev ==> final(self).color == color && final(self).prev_color == old(
                self,
            ).prev_color,
    {
        if prev {
            self.prev_color = color;
        } else {
            self.color = color;
        }
    }
}

/// The command line: an optional format and an optional color to start with.
#[derive(Clone, Debug)]
pub struct Cli {
    pub format: Option<ColorFormat>,
    pub color: Option<String>,
}

} // verus!
