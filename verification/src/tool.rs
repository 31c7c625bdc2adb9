//! Clamping a value into a range.
use vstd::prelude::*;

verus! {

/// Clamps a value into `min..=max`: `min` below it, `max` above it.
pub trait Constrain: Sized {
    fn constrain(self, min: Self, max: Self) -> Self;
}

impl Constrain for i8 {
    fn constrain(self, min: i8, max: i8) -> (r: i8)
        ensures
            r == if self < min {
                min
            } else if self > max {
                max
            } else {
                self
            },
    {
        if self < min {
            min
        } else if self > max {
            max
        } else {
            self
        }
    }
}

impl Constrain for i16 {
    fn constrain(self, min: i16, max: i16) -> (r: i16)
        ensures
            r == if self < min {
                min
            } else if self > max {
                max
            } else {
                self
            },
    {
        if self < min {
            min
        } else if self > max {
            max
        } else {
            self
        }
    }
}

impl Constrain for i32 {
    fn constrain(self, min: i32, max: i32) -> (r: i32)
        ensures
            r == if self < min {
                min
            } else if self > max {
                max
            } else {
                self
            },
    {
        if self < min {
            min
        } else if self > max {
            max
        } else {
            self
        }
    }
}

impl Constrain for i64 {
    fn constrain(self, min: i64, max: i64) -> (r: i64)
        ensures
            r == if self < min {
                min
            } else if self > max {
                max
            } else {
                self
            },
    {
        if self < min {
            min
        } else if self > max {
            max
        } else {
            self
        }
    }
}

impl Constrain for isize {
    fn constrain(self, min: isize, max: isize) -> (r: isize)
        ensures
            r == if self < min {
                min
            } else if self > max {
                max
            } else {
                self
            },
    {
        if self < min {
            min
        } else if self > max {
            max
        } else {
            self
        }
    }
}

impl Constrain for u8 {
    fn constrain(self, min: u8, max: u8) -> (r: u8)
        ensures
            r == if self < min {
                min
            } else if self > max {
                max
            } else {
                self
            },
    {
        if self < min {
            min
        } else if self > max {
            max
        } else {
            self
        }
    }
}

impl Constrain for u16 {
    fn constrain(self, min: u16, max: u16) -> (r: u16)
        ensures
            r == if self < min {
                min
            } else if self > max {
                max
            } else {
                self
            },
    {
        if self < min {
            min
        } else if self > max {
            max
        } else {
            self
        }
    }
}

impl Constrain for u32 {
    fn constrain(self, min: u32, max: u32) -> (r: u32)
        ensures
            r == if self < min {
                min
            } else if self > max {
                max
            } else {
                self
            },
    {
        if self < min {
            min
        } else if self > max {
            max
        } else {
            self
        }
    }
}

impl Constrain for u64 {
    fn constrain(self, min: u64, max: u64) -> (r: u64)
        ensures
            r == if self < min {
                min
            } else if self > max {
                max
            } else {
                self
            },
    {
        if self < min {
            min
        } else if self > max {
            max
        } else {
            self
        }
    }
}

impl Constrain for usize {
    fn constrain(self, min: usize, max: usize) -> (r: usize)
        ensures
            r == if self < min {
                min
            } else if self > max {
                max
            } else {
                self
            },
    {
        if self < min {
            min
        } else if self > max {
            max
        } else {
            self
        }
    }
}

} // verus!
