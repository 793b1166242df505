//! Severities of log events and the thresholds they are filtered against.

use vstd::prelude::*;

verus! {

/// Severity of one log event. `Error` is the most severe, `Trace` the least.
#[derive(Clone, Copy, Debug, PartialEq, Eq, Structural)]
pub enum Level {
    Error,
    Warn,
    Info,
    Debug,
    Trace,
}

/// Verbosity threshold: the least severe level that is still let through.
/// `Off` lets nothing through.
#[derive(Clone, Copy, Debug, PartialEq, Eq, Structural)]
pub enum LevelFilter {
    Off,
    Error,
    Warn,
    Info,
    Debug,
    Trace,
}

impl Level {
    /// The number that stands for this level on the wire: 1 for `Error` up to
    /// 5 for `Trace`.
    pub open spec fn rank(self) -> nat {
        match self {
            Level::Error => 1,
            Level::Warn => 2,
            Level::Info => 3,
            Level::Debug => 4,
            Level::Trace => 5,
        }
    }

    /// The level that a wire number stands for, if any.
    pub open spec fn of_code(code: u32) -> Option<Level> {
        if code == 1 {
            Some(Level::Error)
        } else if code == 2 {
            Some(Level::Warn)
        } else if code == 3 {
            Some(Level::Info)
        } else if code == 4 {
            Some(Level::Debug)
        } else if code == 5 {
            Some(Level::Trace)
        } else {
            None
        }
    }

    /// The threshold that lets through this level and everything more severe.
    pub open spec fn filter(self) -> LevelFilter {
        match self {
            Level::Error => LevelFilter::Error,
            Level::Warn => LevelFilter::Warn,
            Level::Info => LevelFilter::Info,
            Level::Debug => LevelFilter::Debug,
            Level::Trace => LevelFilter::Trace,
        }
    }

    /// Name of this level in capitals.
    pub open spec fn name_text(self) -> Seq<char> {
        match self {
            Level::Error => seq!['E', 'R', 'R', 'O', 'R'],
            Level::Warn => seq!['W', 'A', 'R', 'N'],
            Level::Info => seq!['I', 'N', 'F', 'O'],
            Level::Debug => seq!['D', 'E', 'B', 'U', 'G'],
            Level::Trace => seq!['T', 'R', 'A', 'C', 'E'],
        }
    }

    /// Name of this level in capitals.
    pub fn name(self) -> (text: &'static str)
        ensures
            text@ == self.name_text(),
    {
        proof {
            reveal_strlit("ERROR");
            reveal_strlit("WARN");
            reveal_strlit("INFO");
            reveal_strlit("DEBUG");
            reveal_strlit("TRACE");
        }
        let text = match self {
            Level::Error => "ERROR",
            Level::Warn => "WARN",
            Level::Info => "INFO",
            Level::Debug => "DEBUG",
            Level::Trace => "TRACE",
        };
        assert(text@ =~= self.name_text());
        text
    }

    /// The glyph that marks messages of this level.
    pub open spec fn glyph_text(self) -> Seq<char> {
        match self {
            Level::Error => seq!['\u{274c}'],
            Level::Warn => seq!['\u{26a0}', '\u{fe0f}'],
            Level::Info => seq!['\u{2764}', '\u{fe0f}'],
            Level::Debug => seq!['\u{1f4cb}'],
            Level::Trace => seq!['\u{1f3f7}'],
        }
    }

    /// The glyph that marks messages of this level.
    pub fn glyph(self) -> (text: &'static str)
        ensures
            text@ == self.glyph_text(),
    {
        proof {
            reveal_strlit("\u{274c}");
            reveal_strlit("\u{26a0}\u{fe0f}");
            reveal_strlit("\u{2764}\u{fe0f}");
            reveal_strlit("\u{1f4cb}");
            reveal_strlit("\u{1f3f7}");
        }
        let text = match self {
            Level::Error => "\u{274c}",
            Level::Warn => "\u{26a0}\u{fe0f}",
            Level::Info => "\u{2764}\u{fe0f}",
            Level::Debug => "\u{1f4cb}",
            Level::Trace => "\u{1f3f7}",
        };
        assert(text@ =~= self.glyph_text());
        text
    }

    /// Wire number of this level.
    pub fn code(self) -> (code: u32)
        ensures
            code == self.rank(),
            Level::of_code(code) == Some(self),
    {
        match self {
            Level::Error => 1,
            Level::Warn => 2,
            Level::Info => 3,
            Level::Debug => 4,
            Level::Trace => 5,
        }
    }

    /// Level named by a wire number; `None` for every number outside 1 to 5.
    pub fn from_code(code: u32) -> (level: Option<Level>)
        ensures
            level == Level::of_code(code),
            level matches Some(l) ==> l.rank() == code,
            level is None <==> !(1 <= code <= 5),
    {
        if code == 1 {
            Some(Level::Error)
        } else if code == 2 {
            Some(Level::Warn)
        } else if code == 3 {
            Some(Level::Info)
        } else if code == 4 {
            Some(Level::Debug)
        } else if code == 5 {
            Some(Level::Trace)
        } else {
            None
        }
    }

    /// Threshold with the same rank as this level.
    pub fn to_level_filter(self) -> (filter: LevelFilter)
        ensures
            filter == self.filter(),
            filter.rank() == self.rank(),
    {
        match self {
            Level::Error => LevelFilter::Error,
            Level::Warn => LevelFilter::Warn,
            Level::Info => LevelFilter::Info,
            Level::Debug => LevelFilter::Debug,
            Level::Trace => LevelFilter::Trace,
        }
    }
}

impl LevelFilter {
    /// Position in the order of verbosity: 0 for `Off`, then the rank of the
    /// level of the same name.
    pub open spec fn rank(self) -> nat {
        match self {
            LevelFilter::Off => 0,
            LevelFilter::Error => 1,
            LevelFilter::Warn => 2,
            LevelFilter::Info => 3,
            LevelFilter::Debug => 4,
            LevelFilter::Trace => 5,
        }
    }

    /// Whether an event of `level` passes this threshold: it does when it is
    /// at least as severe as the threshold.
    pub open spec fn admits(self, level: Level) -> bool {
        level.rank() <= self.rank()
    }

    /// The more verbose of two thresholds.
    pub open spec fn join(self, other: LevelFilter) -> LevelFilter {
        if self.rank() >= other.rank() {
            self
        } else {
            other
        }
    }

    /// Rank of this threshold as a machine integer.
    pub fn ordinal(self) -> (n: u8)
        ensures
            n == self.rank(),
    {
        match self {
            LevelFilter::Off => 0,
            LevelFilter::Error => 1,
            LevelFilter::Warn => 2,
            LevelFilter::Info => 3,
            LevelFilter::Debug => 4,
            LevelFilter::Trace => 5,
        }
    }

    /// Decides whether an event of `level` passes this threshold.
    pub fn allows(self, level: Level) -> (pass: bool)
        ensures
            pass == self.admits(level),
    {
        level.to_level_filter().ordinal() <= self.ordinal()
    }

    /// Returns the more verbose of `self` and `other`.
    pub fn max(self, other: LevelFilter) -> (top: LevelFilter)
        ensures
            top == self.join(other),
    {
        if self.ordinal() >= other.ordinal() {
            self
        } else {
            other
        }
    }
}

/// Two thresholds of the same rank are the same threshold.
pub proof fn lemma_rank_determines_filter(a: LevelFilter, b: LevelFilter)
    requires
        a.rank() == b.rank(),
    ensures
        a == b,
{
}

} // verus!
