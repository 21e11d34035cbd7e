use vstd::prelude::*;
use crate::text::{chars_of, push_chars, push_char, digit_char};

verus! {

#[allow(non_camel_case_types)]
#[derive(Debug, Clone, Copy, PartialEq, Eq, Structural)]
pub enum LogLevel {
    INFO,
    WARN,
    ERROR,
    DEBUG,
}

/// Two decimal digits of a number below 100.
pub open spec fn two_digits(n: nat) -> Seq<char> {
    seq![digit_char(n / 10), digit_char(n % 10)]
}

/// `HH:MM:SS` of the time of day, from seconds since the epoch.
pub open spec fn clock_text(secs: u64) -> Seq<char> {
    two_digits(((secs / 3600) % 24) as nat) + seq![':'] + two_digits(((secs / 60) % 60) as nat) + seq![':']
        + two_digits((secs % 60) as nat)
}

pub open spec fn level_text(l: LogLevel) -> Seq<char> {
    match l {
        LogLevel::INFO => seq!['I', 'N', 'F', 'O'],
        LogLevel::WARN => seq!['W', 'A', 'R', 'N'],
        LogLevel::ERROR => seq!['E', 'R', 'R', 'O', 'R'],
        LogLevel::DEBUG => seq!['D', 'E', 'B', 'U', 'G'],
    }
}

/// `[HH:MM:SS LEVEL module] message`.
pub open spec fn log_line(l: LogLevel, module: Seq<char>, message: Seq<char>, secs: u64) -> Seq<char> {
    seq!['['] + clock_text(secs) + seq![' '] + level_text(l) + seq![' '] + module + seq![']', ' '] + message
}

/// Formats log lines; the caller writes them out.
pub struct Logger;

fn digit(d: u64) -> (c: char)
    requires
        d < 10,
    ensures
        c == digit_char(d as nat),
{
    if d == 0 { '0' }
    else if d == 1 { '1' }
    else if d == 2 { '2' }
    else if d == 3 { '3' }
    else if d == 4 { '4' }
    else if d == 5 { '5' }
    else if d == 6 { '6' }
    else if d == 7 { '7' }
    else if d == 8 { '8' }
    else { '9' }
}

fn push_two_digits(s: &mut String, n: u64)
    requires
        n < 100,
    ensures
        final(s)@ == old(s)@ + two_digits(n as nat),
{
    push_char(s, digit(n / 10));
    push_char(s, digit(n % 10));
    assert(final(s)@ =~= old(s)@ + two_digits(n as nat)) by {
        assert((n / 10) as nat == (n as nat) / 10);
    }
}

impl Logger {
    /// `HH:MM:SS` of the time of day, from seconds since the epoch.
    pub fn format_time(total_secs: u64) -> (r: String)
        ensures
            r@ == clock_text(total_secs),
    {
        let mut r = String::new();
        push_two_digits(&mut r, (total_secs / 3600) % 24);
        push_char(&mut r, ':');
        push_two_digits(&mut r, (total_secs / 60) % 60);
        push_char(&mut r, ':');
        push_two_digits(&mut r, total_secs % 60);
        assert(r@ =~= clock_text(total_secs));
        r
    }

    fn level_name(level: LogLevel) -> (r: Vec<char>)
        ensures
            r@ == level_text(level),
    {
        let v = match level {
            LogLevel::INFO => vec!['I', 'N', 'F', 'O'],
            LogLevel::WARN => vec!['W', 'A', 'R', 'N'],
            LogLevel::ERROR => vec!['E', 'R', 'R', 'O', 'R'],
            LogLevel::DEBUG => vec!['D', 'E', 'B', 'U', 'G'],
        };
        assert(v@ =~= level_text(level));
        v
    }

    /// The log line for a message, stamped with the time of day.
    pub fn log(level: LogLevel, module: &str, message: &str, now_secs: u64) -> (r: String)
        ensures
            r@ == log_line(level, module@, message@, now_secs),
    {
        let mut r = String::new();
        push_char(&mut r, '[');
        let t = Self::format_time(now_secs);
        push_chars(&mut r, chars_of(t.as_str()).as_slice());
        push_char(&mut r, ' ');
        push_chars(&mut r, Self::level_name(level).as_slice());
        push_char(&mut r, ' ');
        push_chars(&mut r, chars_of(module).as_slice());
        push_char(&mut r, ']');
        push_char(&mut r, ' ');
        push_chars(&mut r, chars_of(message).as_slice());
        assert(r@ =~= log_line(level, module@, message@, now_secs));
        r
    }

    pub fn info(module: &str, message: &str, now_secs: u64) -> (r: String)
        ensures
            r@ == log_line(LogLevel::INFO, module@, message@, now_secs),
    {
        Self::log(LogLevel::INFO, module, message, now_secs)
    }

    pub fn warn(module: &str, message: &str, now_secs: u64) -> (r: String)
        ensures
            r@ == log_line(LogLevel::WARN, module@, message@, now_secs),
    {
        Self::log(LogLevel::WARN, module, message, now_secs)
    }

    pub fn error(module: &str, message: &str, now_secs: u64) -> (r: String)
        ensures
            r@ == log_line(LogLevel::ERROR, module@, message@, now_secs),
    {
        Self::log(LogLevel::ERROR, module, message, now_secs)
    }

    pub fn debug(module: &str, message: &str, now_secs: u64) -> (r: String)
        ensures
            r@ == log_line(LogLevel::DEBUG, module@, message@, now_secs),
    {
        Self::log(LogLevel::DEBUG, module, message, now_secs)
    }
}

} // verus!
