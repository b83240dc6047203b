use vstd::prelude::*;

verus! {

/// The severity of a log record, from least to most severe.
#[derive(Clone, Copy, Debug, PartialEq, Eq, Structural)]
pub enum LogLevel {
    VERBOSE,
    DEBUG,
    INFO,
    WARN,
    ERROR,
    FATAL,
}

/// The position of a level in the order of severity.
pub open spec fn rank_of(l: LogLevel) -> nat {
    match l {
        LogLevel::VERBOSE => 0,
        LogLevel::DEBUG => 1,
        LogLevel::INFO => 2,
        LogLevel::WARN => 3,
        LogLevel::ERROR => 4,
        LogLevel::FATAL => 5,
    }
}

/// The level that a record's letter names.
pub open spec fn level_of(c: char) -> Option<LogLevel> {
    if c == 'V' {
        Some(LogLevel::VERBOSE)
    } else if c == 'D' {
        Some(LogLevel::DEBUG)
    } else if c == 'I' {
        Some(LogLevel::INFO)
    } else if c == 'W' {
        Some(LogLevel::WARN)
    } else if c == 'E' {
        Some(LogLevel::ERROR)
    } else if c == 'F' {
        Some(LogLevel::FATAL)
    } else {
        None
    }
}

/// The letter that names a level.
pub open spec fn letter_of(l: LogLevel) -> char {
    match l {
        LogLevel::VERBOSE => 'V',
        LogLevel::DEBUG => 'D',
        LogLevel::INFO => 'I',
        LogLevel::WARN => 'W',
        LogLevel::ERROR => 'E',
        LogLevel::FATAL => 'F',
    }
}

impl LogLevel {
    /// The position of the level in the order of severity.
    pub fn rank(&self) -> (r: u8)
        ensures
            r as nat == rank_of(*self),
    {
        match self {
            LogLevel::VERBOSE => 0,
            LogLevel::DEBUG => 1,
            LogLevel::INFO => 2,
            LogLevel::WARN => 3,
            LogLevel::ERROR => 4,
            LogLevel::FATAL => 5,
        }
    }

    /// The level named by the letter `c` (`V`, `D`, `I`, `W`, `E`, `F`).
    pub fn from_letter(c: char) -> (r: Option<LogLevel>)
        ensures
            r == level_of(c),
    {
        if c == 'V' {
            Some(LogLevel::VERBOSE)
        } else if c == 'D' {
            Some(LogLevel::DEBUG)
        } else if c == 'I' {
            Some(LogLevel::INFO)
        } else if c == 'W' {
            Some(LogLevel::WARN)
        } else if c == 'E' {
            Some(LogLevel::ERROR)
        } else if c == 'F' {
            Some(LogLevel::FATAL)
        } else {
            None
        }
    }

    /// The letter of the level.
    pub fn letter(&self) -> (c: char)
        ensures
            c == letter_of(*self),
            level_of(c) == Some(*self),
    {
        match self {
            LogLevel::VERBOSE => 'V',
            LogLevel::DEBUG => 'D',
            LogLevel::INFO => 'I',
            LogLevel::WARN => 'W',
            LogLevel::ERROR => 'E',
            LogLevel::FATAL => 'F',
        }
    }

    /// Whether this level is at least as severe as `threshold`.
    pub fn at_least(&self, threshold: LogLevel) -> (b: bool)
        ensures
            b == (rank_of(*self) >= rank_of(threshold)),
    {
        self.rank() >= threshold.rank()
    }
}

} // verus!
