//! Ruler guides for the 2D viewport: guides are dragged out of the rulers
//! (the top ruler gives a horizontal, constant-`y` guide; the left ruler a
//! vertical, constant-`x` one), repositioned and removed again. Positions
//! are carried as the viewport measures them.

use vstd::prelude::*;

verus! {

/// The orientation of a guide line.
#[derive(Debug, Clone, Copy, PartialEq, Eq, Structural)]
pub enum GuideOrientation {
    /// A horizontal line, dragged from the top ruler, at a fixed `y`.
    Horizontal,
    /// A vertical line, dragged from the left ruler, at a fixed `x`.
    Vertical,
}

/// A single guide line.
#[derive(Debug, Clone, Copy, PartialEq)]
pub struct Guide<P> {
    /// The orientation of the guide.
    pub orientation: GuideOrientation,
    /// The guide's coordinate (`y` if horizontal, `x` if vertical).
    pub position: P,
}

/// The guides placed in the viewport, in creation order.
#[derive(Debug, Clone)]
pub struct GuideSet<P> {
    guides: Vec<Guide<P>>,
}

impl<P: Copy> GuideSet<P> {
    /// The guides, in creation order.
    pub closed spec fn lines(&self) -> Seq<Guide<P>> {
        self.guides@
    }

    /// No guides.
    pub fn new() -> (r: Self)
        ensures
            r.lines() == Seq::<Guide<P>>::empty(),
    {
        GuideSet { guides: Vec::new() }
    }

    /// The guides, in creation order.
    pub fn guides(&self) -> (r: &[Guide<P>])
        ensures
            r@ == self.lines(),
    {
        self.guides.as_slice()
    }

    /// The number of guides.
    pub fn len(&self) -> (r: usize)
        ensures
            r == self.lines().len(),
    {
        self.guides.len()
    }

    /// Whether there are no guides.
    pub fn is_empty(&self) -> (r: bool)
        ensures
            r == (self.lines().len() == 0),
    {
        self.guides.len() == 0
    }

    /// Adds a guide dragged out of a ruler at `position`. Returns its index.
    pub fn create_from_ruler(&mut self, orientation: GuideOrientation, position: P) -> (r: usize)
        requires
            old(self).lines().len() < usize::MAX,
        ensures
            final(self).lines() == old(self).lines().push(Guide { orientation, position }),
            r == old(self).lines().len(),
    {
        self.guides.push(Guide { orientation, position });
        self.guides.len() - 1
    }

    /// Moves the guide at `index` to `position`. Returns `false` (and changes
    /// nothing) if there is no such guide.
    pub fn move_guide(&mut self, index: usize, position: P) -> (r: bool)
        ensures
            r == (index < old(self).lines().len()),
            final(self).lines() == if r {
                old(self).lines().update(index as int,
                    Guide { orientation: old(self).lines()[index as int].orientation, position })
            } else {
                old(self).lines()
            },
    {
        if index < self.guides.len() {
            let g = Guide { orientation: self.guides[index].orientation, position };
            self.guides.set(index, g);
            true
        } else {
            false
        }
    }

    /// Removes the guide at `index` (dragged back onto its ruler). Returns
    /// `false` (and changes nothing) if there is no such guide.
    pub fn remove_guide(&mut self, index: usize) -> (r: bool)
        ensures
            r == (index < old(self).lines().len()),
            final(self).lines() == if r { old(self).lines().remove(index as int) } else { old(self).lines() },
    {
        if index < self.guides.len() {
            self.guides.remove(index);
            true
        } else {
            false
        }
    }
}

impl<P: Copy> Default for GuideSet<P> {
    /// No guides.
    fn default() -> (r: Self)
        ensures
            r.lines() == Seq::<Guide<P>>::empty(),
    {
        GuideSet::new()
    }
}

} // verus!
