//! Severity levels and their names.
use vstd::prelude::*;

use crate::chars::{char_lower, chars_of, lower_all, same_chars};

verus! {

/// Severity of a span or event, from the most verbose to the most severe.
#[derive(Debug, Clone, Copy, PartialEq, Eq, Structural, PartialOrd, Ord, Hash)]
pub enum Level {
    Trace,
    Debug,
    Info,
    Warn,
    Error,
}

/// The level that a name stands for, compared without regard to ASCII case.
pub open spec fn level_named(name: Seq<char>) -> Option<Level> {
    let l = lower_all(name);
    if l == seq!['t', 'r', 'a', 'c', 'e'] {
        Some(Level::Trace)
    } else if l == seq!['d', 'e', 'b', 'u', 'g'] {
        Some(Level::Debug)
    } else if l == seq!['i', 'n', 'f', 'o'] {
        Some(Level::Info)
    } else if l == seq!['w', 'a', 'r', 'n'] {
        Some(Level::Warn)
    } else if l == seq!['e', 'r', 'r', 'o', 'r'] {
        Some(Level::Error)
    } else {
        None
    }
}

impl Level {
    /// Position of the level in the severity order, `Trace` lowest.
    pub open spec fn rank(self) -> nat {
        match self {
            Level::Trace => 0,
            Level::Debug => 1,
            Level::Info => 2,
            Level::Warn => 3,
            Level::Error => 4,
        }
    }

    /// A threshold of `self` lets an item of level `item` through.
    pub open spec fn lets_through(self, item: Level) -> bool {
        self.rank() <= item.rank()
    }

    /// The position of the level in the severity order.
    pub fn order(self) -> (r: u8)
        ensures
            r as nat == self.rank(),
    {
        match self {
            Level::Trace => 0,
            Level::Debug => 1,
            Level::Info => 2,
            Level::Warn => 3,
            Level::Error => 4,
        }
    }

    /// Whether a directive with threshold `self` admits an item of level
    /// `item`: it does when `item` is at least as severe.
    pub fn admits(self, item: Level) -> (r: bool)
        ensures
            r == self.lets_through(item),
    {
        self.order() <= item.order()
    }

    /// The level that `name` stands for (`trace`, `debug`, `info`, `warn` or
    /// `error`, in any ASCII case), or `None`.
    pub fn from_name(name: &str) -> (r: Option<Level>)
        ensures
            r == level_named(name@),
    {
        let chars = chars_of(name);
        let mut low: Vec<char> = Vec::new();
        for i in 0..chars.len()
            invariant
                low@ == lower_all(chars@.subrange(0, i as int)),
        {
            low.push(char_lower(chars[i]));
            assert(lower_all(chars@.subrange(0, i + 1)) == lower_all(chars@.subrange(0, i as int)).push(
                crate::chars::lower(chars@[i as int]),
            ));
        }
        assert(chars@.subrange(0, chars@.len() as int) == chars@);
        if same_chars(low.as_slice(), &['t', 'r', 'a', 'c', 'e']) {
            Some(Level::Trace)
        } else if same_chars(low.as_slice(), &['d', 'e', 'b', 'u', 'g']) {
            Some(Level::Debug)
        } else if same_chars(low.as_slice(), &['i', 'n', 'f', 'o']) {
            Some(Level::Info)
        } else if same_chars(low.as_slice(), &['w', 'a', 'r', 'n']) {
            Some(Level::Warn)
        } else if same_chars(low.as_slice(), &['e', 'r', 'r', 'o', 'r']) {
            Some(Level::Error)
        } else {
            None
        }
    }
}

/// For two levels `low` below `high`, a threshold of `low` admits every level
/// at least as severe as `low`, `high` among them, while a threshold of `high`
/// does not admit `low`.
pub proof fn lemma_threshold_order(low: Level, high: Level)
    requires
        low.rank() < high.rank(),
    ensures
        forall|l: Level| l.rank() >= low.rank() ==> #[trigger] low.lets_through(l),
        low.lets_through(high),
        !high.lets_through(low),
{
}

} // verus!
