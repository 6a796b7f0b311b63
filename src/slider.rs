use vstd::prelude::*;

verus! {

/// Which of the three sound sliders the bar currently shows.
#[derive(Clone, Copy, Debug, PartialEq, Eq, Structural)]
pub enum SliderIndex {
    Balance,
    Left,
    Right,
}

impl SliderIndex {
    /// Position of the slider in the cycle Balance, Left, Right.
    pub open spec fn rank(self) -> int {
        match self {
            SliderIndex::Balance => 0,
            SliderIndex::Left => 1,
            SliderIndex::Right => 2,
        }
    }

    /// The slider that follows this one in the cycle.
    pub fn next(&self) -> (r: Self)
        ensures
            r.rank() == (self.rank() + 1) % 3,
    {
        match self {
            SliderIndex::Balance => SliderIndex::Left,
            SliderIndex::Left => SliderIndex::Right,
            SliderIndex::Right => SliderIndex::Balance,
        }
    }

    /// The slider that precedes this one in the cycle.
    pub fn pre(&self) -> (r: Self)
        ensures
            r.rank() == (self.rank() + 2) % 3,
    {
        match self {
            SliderIndex::Balance => SliderIndex::Right,
            SliderIndex::Left => SliderIndex::Balance,
            SliderIndex::Right => SliderIndex::Left,
        }
    }
}

impl Default for SliderIndex {
    fn default() -> (r: Self)
        ensures
            r == SliderIndex::Balance,
    {
        SliderIndex::Balance
    }
}

} // verus!
