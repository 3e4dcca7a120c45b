use vstd::prelude::*;

verus! {

/// Which of the three lines of business use a capability.
#[derive(Debug, PartialEq, Eq, Structural, Clone, Copy)]
pub struct LobUsage {
    pub consumer: bool,
    pub sbb: bool,
    pub commercial: bool,
}

impl LobUsage {
    /// The usage of the three lines, in the order consumer, small business,
    /// commercial.
    pub fn new(bools: [bool; 3]) -> (r: Self)
        ensures
            r == (LobUsage { consumer: bools[0], sbb: bools[1], commercial: bools[2] }),
    {
        LobUsage { consumer: bools[0], sbb: bools[1], commercial: bools[2] }
    }

    /// The lines that use a capability by this usage or by `other`.
    pub open spec fn or(self, other: LobUsage) -> LobUsage {
        LobUsage {
            consumer: self.consumer || other.consumer,
            sbb: self.sbb || other.sbb,
            commercial: self.commercial || other.commercial,
        }
    }

    /// Takes in the lines that use a capability by `rhs`.
    pub fn merge(&mut self, rhs: LobUsage)
        ensures
            *final(self) == old(self).or(rhs),
    {
        self.consumer = self.consumer || rhs.consumer;
        self.sbb = self.sbb || rhs.sbb;
        self.commercial = self.commercial || rhs.commercial;
    }
}

/// The colours of the box and of the text for a usage: grey where the
/// usage is not known, and else one colour for each of the eight usages.
pub open spec fn color_strs(lob_usage: Option<LobUsage>) -> (&'static str, &'static str) {
    match lob_usage {
        None => ("#E8E8E8", "#000000"),
        Some(usage) => match (usage.commercial, usage.sbb, usage.consumer) {
            (true, true, true) => ("#804000", "#FFFFFF"),
            (true, true, false) => ("#F58CFF", "#000000"),
            (true, false, true) => ("#FFC77F", "#000000"),
            (true, false, false) => ("#FF6163", "#000000"),
            (false, true, true) => ("#80FF80", "#000000"),
            (false, true, false) => ("#7F7FFF", "#000000"),
            (false, false, true) => ("#FFFF7F", "#000000"),
            (false, false, false) => ("#FFFFFF", "#000000"),
        },
    }
}

/// The colours to use for the box and for the text of a capability with
/// this usage.
pub fn get_color_strs(lob_usage: Option<LobUsage>) -> (colors: (&'static str, &'static str))
    ensures
        colors == color_strs(lob_usage),
{
    match lob_usage {
        None => ("#E8E8E8", "#000000"),
        Some(usage) => {
            if usage.commercial {
                if usage.sbb {
                    if usage.consumer {
                        ("#804000", "#FFFFFF")
                    } else {
                        ("#F58CFF", "#000000")
                    }
                } else if usage.consumer {
                    ("#FFC77F", "#000000")
                } else {
                    ("#FF6163", "#000000")
                }
            } else if usage.sbb {
                if usage.consumer {
                    ("#80FF80", "#000000")
                } else {
                    ("#7F7FFF", "#000000")
                }
            } else if usage.consumer {
                ("#FFFF7F", "#000000")
            } else {
                ("#FFFFFF", "#000000")
            }
        },
    }
}

} // verus!
