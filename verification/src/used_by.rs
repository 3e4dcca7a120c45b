use vstd::prelude::*;
use crate::text::same_text;

verus! {

/// Whether a line of business uses a capability.
#[derive(Debug, PartialEq, Eq, Structural, Clone, Copy)]
pub enum UsedBy {
    Yes,
    No,
    Maybe,
    Blank,
    Mixed,
}

/// The use of a capability by each of the three lines of business.
#[derive(Debug, PartialEq, Eq, Structural, Clone, Copy)]
pub struct UsedBySet {
    pub consumer: UsedBy,
    pub sbb: UsedBy,
    pub commercial: UsedBy,
}

/// The word that stands for a value in the data.
pub open spec fn used_by_word(x: UsedBy) -> Seq<char> {
    match x {
        UsedBy::Yes => "Yes"@,
        UsedBy::No => "No"@,
        UsedBy::Maybe => "Maybe"@,
        UsedBy::Blank => ""@,
        UsedBy::Mixed => "Mixed"@,
    }
}

/// The value that a word of the data stands for, and `None` where it
/// stands for none.
pub open spec fn used_by_of(word: Seq<char>) -> Option<UsedBy> {
    if word == "Yes"@ {
        Some(UsedBy::Yes)
    } else if word == "No"@ {
        Some(UsedBy::No)
    } else if word == "Maybe"@ {
        Some(UsedBy::Maybe)
    } else if word == ""@ {
        Some(UsedBy::Blank)
    } else if word == "Mixed"@ {
        Some(UsedBy::Mixed)
    } else {
        None
    }
}

impl UsedBy {
    /// Reads a word of the data; `None` where it is not one of the five.
    pub fn from_text(s: &str) -> (r: Option<UsedBy>)
        ensures
            r == used_by_of(s@),
    {
        if same_text(s, "Yes") {
            Some(UsedBy::Yes)
        } else if same_text(s, "No") {
            Some(UsedBy::No)
        } else if same_text(s, "Maybe") {
            Some(UsedBy::Maybe)
        } else if same_text(s, "") {
            Some(UsedBy::Blank)
        } else if same_text(s, "Mixed") {
            Some(UsedBy::Mixed)
        } else {
            None
        }
    }

    /// The word that stands for the value in the data.
    pub fn as_text(self) -> (s: &'static str)
        ensures
            s@ == used_by_word(self),
    {
        match self {
            UsedBy::Yes => "Yes",
            UsedBy::No => "No",
            UsedBy::Maybe => "Maybe",
            UsedBy::Blank => "",
            UsedBy::Mixed => "Mixed",
        }
    }
}

impl Default for UsedBy {
    fn default() -> (r: UsedBy)
        ensures
            r == UsedBy::Blank,
    {
        UsedBy::Blank
    }
}

/// Reading the word of a value gives the value back.
pub proof fn used_by_word_reads_back(x: UsedBy)
    ensures
        used_by_of(used_by_word(x)) == Some(x),
{
    reveal_strlit("Yes");
    reveal_strlit("No");
    reveal_strlit("Maybe");
    reveal_strlit("");
    reveal_strlit("Mixed");
    assert("Yes"@.len() == 3);
    assert("No"@.len() == 2);
    assert("Maybe"@.len() == 5);
    assert(""@.len() == 0);
    assert("Mixed"@.len() == 5);
    assert("Maybe"@[1] == 'a');
    assert("Mixed"@[1] == 'i');
}

impl UsedBySet {
    /// The set in which every use is `Mixed`.
    pub fn all_mixed() -> (r: Self)
        ensures
            r == (UsedBySet {
                consumer: UsedBy::Mixed,
                sbb: UsedBy::Mixed,
                commercial: UsedBy::Mixed,
            }),
    {
        UsedBySet { consumer: UsedBy::Mixed, sbb: UsedBy::Mixed, commercial: UsedBy::Mixed }
    }

    /// The set in which every use is `Blank`.
    pub fn all_blank() -> (r: Self)
        ensures
            r == (UsedBySet {
                consumer: UsedBy::Blank,
                sbb: UsedBy::Blank,
                commercial: UsedBy::Blank,
            }),
    {
        UsedBySet { consumer: UsedBy::Blank, sbb: UsedBy::Blank, commercial: UsedBy::Blank }
    }

    /// The set of the three uses, in the order consumer, small business,
    /// commercial.
    pub fn from_fields(consumer: UsedBy, sbb: UsedBy, commercial: UsedBy) -> (r: Self)
        ensures
            r == (UsedBySet { consumer, sbb, commercial }),
    {
        UsedBySet { consumer, sbb, commercial }
    }

    /// Whether one of the three uses is `x`.
    pub open spec fn has(self, x: UsedBy) -> bool {
        self.consumer == x || self.sbb == x || self.commercial == x
    }
}

impl Default for UsedBySet {
    fn default() -> (r: UsedBySet)
        ensures
            r == (UsedBySet {
                consumer: UsedBy::Blank,
                sbb: UsedBy::Blank,
                commercial: UsedBy::Blank,
            }),
    {
        UsedBySet::all_blank()
    }
}

/// The colours of the box and of the text for a set of uses: grey where a
/// use is mixed or not decided, and else one colour for each of the eight
/// ways in which the three lines can use a capability or not.
pub open spec fn color_strs(set: UsedBySet) -> (&'static str, &'static str) {
    if set.has(UsedBy::Mixed) || set.has(UsedBy::Blank) || set.has(UsedBy::Maybe) {
        ("#E8E8E8", "#000000")
    } else {
        match (set.consumer, set.sbb, set.commercial) {
            (UsedBy::Yes, UsedBy::Yes, UsedBy::Yes) => ("#804000", "#FFFFFF"),
            (UsedBy::Yes, UsedBy::Yes, _) => ("#80FF80", "#000000"),
            (UsedBy::Yes, _, UsedBy::Yes) => ("#FFC77F", "#000000"),
            (UsedBy::Yes, _, _) => ("#FFFF7F", "#000000"),
            (_, UsedBy::Yes, UsedBy::Yes) => ("#F58CFF", "#000000"),
            (_, UsedBy::Yes, _) => ("#8080FF", "#000000"),
            (_, _, UsedBy::Yes) => ("#FF6163", "#000000"),
            (_, _, _) => ("#FFFFFF", "#000000"),
        }
    }
}

/// The colours to use for the box and for the text of what this set of
/// uses belongs to.
pub fn get_color_strs(used_by_set: &UsedBySet) -> (colors: (&'static str, &'static str))
    ensures
        colors == color_strs(*used_by_set),
{
    let set = *used_by_set;
    let mixed = set.consumer == UsedBy::Mixed || set.sbb == UsedBy::Mixed || set.commercial
        == UsedBy::Mixed;
    let undecided = set.consumer == UsedBy::Blank || set.sbb == UsedBy::Blank || set.commercial
        == UsedBy::Blank || set.consumer == UsedBy::Maybe || set.sbb == UsedBy::Maybe
        || set.commercial == UsedBy::Maybe;
    if mixed {
        ("#E8E8E8", "#000000")
    } else if undecided {
        ("#E8E8E8", "#000000")
    } else {
        let consumer = set.consumer == UsedBy::Yes;
        let sbb = set.sbb == UsedBy::Yes;
        let commercial = set.commercial == UsedBy::Yes;
        if consumer && sbb && commercial {
            ("#804000", "#FFFFFF")
        } else if consumer && sbb {
            ("#80FF80", "#000000")
        } else if consumer && commercial {
            ("#FFC77F", "#000000")
        } else if consumer {
            ("#FFFF7F", "#000000")
        } else if sbb && commercial {
            ("#F58CFF", "#000000")
        } else if sbb {
            ("#8080FF", "#000000")
        } else if commercial {
            ("#FF6163", "#000000")
        } else {
            ("#FFFFFF", "#000000")
        }
    }
}

} // verus!
