//! Command-line decisions: which of the accepted invocation shapes the
//! arguments take, and what scan they ask for.
//!
//! The accepted shapes are `<program> <IP>`, `<program> -j <THREADS> <IP>`,
//! and `<program> -h` (or `-help`). The worker count is an unsigned 16-bit
//! decimal in `[1, 65535]`; the single-argument shape defaults it to 4. The
//! target address is carried through as text: whether it names a valid IPv4
//! or IPv6 address is decided by the caller, after every other check, just as
//! the address is the last thing examined in both accepted shapes.

use vstd::prelude::*;

verus! {

/// A scan request distilled from the command line: the target address text
/// and the worker count.
pub struct Arguments {
    pub ip_text: String,
    pub threads: u16,
}

impl Arguments {
    /// A well-formed request always has at least one worker.
    pub open spec fn wf(self) -> bool {
        1 <= self.threads
    }
}

/// What a well-shaped command line asks for.
pub enum Command {
    /// Usage text was requested; nothing is scanned.
    Help,
    /// Run a scan with these arguments.
    Run(Arguments),
}

/// Why a command line is rejected before any scanning starts.
pub enum CliError {
    /// Neither one nor three arguments followed the program name.
    InvalidArgCount,
    /// Three arguments were given but the first is not `-j`.
    UnknownFlag,
    /// The worker count is not a decimal in `[1, 65535]`.
    InvalidThreadCount,
    /// The target text names no IPv4 or IPv6 address. The parsing here never
    /// produces it: the caller, who owns address validation, does.
    InvalidIp,
}

impl CliError {
    /// The one-line diagnostic for this error, as the process reports it.
    pub fn message(&self) -> (m: &'static str)
        ensures
            self is InvalidArgCount ==> m@ == "invalid number of arguments"@,
            self is UnknownFlag ==> m@ == "unknown flag"@,
            self is InvalidThreadCount ==> m@ == "failed to parse thread count"@,
            self is InvalidIp ==> m@ == "not a valid IP address"@,
    {
        match self {
            CliError::InvalidArgCount => "invalid number of arguments",
            CliError::UnknownFlag => "unknown flag",
            CliError::InvalidThreadCount => "failed to parse thread count",
            CliError::InvalidIp => "not a valid IP address",
        }
    }
}

/// Whether `c` is a decimal digit.
pub open spec fn is_digit(c: char) -> bool {
    48 <= c as u32 <= 57
}

/// The value of the decimal digit `c`.
pub open spec fn digit_val(c: char) -> int {
    c as u32 - 48
}

/// Whether every character of `s` is a decimal digit.
pub open spec fn all_digits(s: Seq<char>) -> bool {
    forall|i: int| 0 <= i < s.len() ==> is_digit(#[trigger] s[i])
}

/// The value of a sequence of decimal digits, most significant first.
pub open spec fn digits_val(s: Seq<char>) -> int
    decreases s.len(),
{
    if s.len() == 0 {
        0
    } else {
        digits_val(s.drop_last()) * 10 + digit_val(s.last())
    }
}

/// The digit part of a decimal numeral: everything after an optional leading
/// plus sign.
pub open spec fn unsigned_digits(s: Seq<char>) -> Seq<char> {
    if s.len() > 0 && s[0] == '+' {
        s.subrange(1, s.len() as int)
    } else {
        s
    }
}

/// Whether `s` is a decimal numeral whose value fits in a `u16`: an optional
/// plus sign, then at least one digit, with value at most 65535.
pub open spec fn is_u16_numeral(s: Seq<char>) -> bool {
    &&& unsigned_digits(s).len() > 0
    &&& all_digits(unsigned_digits(s))
    &&& digits_val(unsigned_digits(s)) <= 65535
}

/// The value of a decimal numeral.
pub open spec fn numeral_val(s: Seq<char>) -> int {
    digits_val(unsigned_digits(s))
}

/// Whether `s` names an accepted worker count: a `u16` numeral that is not
/// zero.
pub open spec fn is_thread_count(s: Seq<char>) -> bool {
    is_u16_numeral(s) && numeral_val(s) >= 1
}

/// A sequence of digits has a value of at least zero.
proof fn lemma_digits_val_nonneg(s: Seq<char>)
    requires
        all_digits(s),
    ensures
        digits_val(s) >= 0,
    decreases s.len(),
{
    if s.len() > 0 {
        lemma_digits_val_nonneg(s.drop_last());
    }
}

/// Extending a sequence of digits never shrinks its value: the value of a
/// prefix is a lower bound for the value of the whole.
proof fn lemma_digits_val_monotone(s: Seq<char>, i: int)
    requires
        0 <= i <= s.len(),
        all_digits(s),
    ensures
        digits_val(s.take(i)) <= digits_val(s),
    decreases s.len() - i,
{
    if i == s.len() {
        assert(s.take(i) =~= s);
    } else {
        lemma_digits_val_monotone(s, i + 1);
        assert(s.take(i + 1).drop_last() =~= s.take(i));
        lemma_digits_val_nonneg(s.take(i + 1).drop_last());
    }
}

/// Read a `u16` from decimal text, exactly as far as the text deserves it:
/// the result is a value precisely when the text is a `u16` numeral, and it
/// is that numeral's value.
pub fn parse_u16(s: &str) -> (r: Option<u16>)
    ensures
        r is Some <==> is_u16_numeral(s@),
        r matches Some(v) ==> v as int == numeral_val(s@),
{
    let len = s.unicode_len();
    let mut start: usize = 0;
    if len > 0 && s.get_char(0) == '+' {
        start = 1;
    }
    let ghost d = unsigned_digits(s@);
    proof {
        assert(d =~= s@.subrange(start as int, len as int));
    }
    if start >= len {
        return None;
    }
    let mut acc: u32 = 0;
    let mut i: usize = start;
    while i < len
        invariant
            start <= i <= len,
            len == s@.len(),
            start <= 1,
            d == s@.subrange(start as int, len as int),
            d == unsigned_digits(s@),
            acc as int == digits_val(d.take(i - start)),
            all_digits(d.take(i - start)),
            acc <= 65535,
        decreases len - i,
    {
        let c = s.get_char(i);
        let u = c as u32;
        if u < 48 || u > 57 {
            proof {
                assert(d[i - start] == s@[i as int]);
                assert(!is_digit(d[i - start]));
            }
            return None;
        }
        proof {
            assert(d.take(i - start + 1).drop_last() =~= d.take(i - start));
            assert(d.take(i - start + 1).last() == d[i - start]);
            assert(d[i - start] == s@[i as int]);
        }
        acc = acc * 10 + (u - 48);
        if acc > 65535 {
            proof {
                if all_digits(d) {
                    lemma_digits_val_monotone(d, i + 1 - start);
                }
            }
            return None;
        }
        i = i + 1;
    }
    proof {
        assert(d.take(len - start) =~= d);
    }
    Some(acc as u16)
}

/// Whether two pieces of text hold the same characters.
pub fn str_eq(a: &str, b: &str) -> (r: bool)
    ensures
        r == (a@ == b@),
{
    let la = a.unicode_len();
    let lb = b.unicode_len();
    if la != lb {
        return false;
    }
    let mut i: usize = 0;
    while i < la
        invariant
            i <= la,
            la == a@.len(),
            la == b@.len(),
            forall|t: int| 0 <= t < i ==> a@[t] == b@[t],
        decreases la - i,
    {
        if a.get_char(i) != b.get_char(i) {
            return false;
        }
        i = i + 1;
    }
    proof {
        assert(a@ =~= b@);
    }
    true
}

/// Whether this lone argument asks for the usage text.
pub open spec fn help_requested(arg: Seq<char>) -> bool {
    arg == "-h"@ || arg == "-help"@
}

/// What parsing a single argument must produce: the usage request for `-h`
/// or `-help`, and otherwise a scan of that address text with the default of
/// four workers.
pub open spec fn single_parse_result(arg: Seq<char>, r: Result<Command, CliError>) -> bool {
    if help_requested(arg) {
        r matches Ok(c) && c is Help
    } else {
        r matches Ok(c) && (c matches Command::Run(a) && a.wf() && a.ip_text@ == arg
            && a.threads == 4)
    }
}

/// What parsing the flagged shape must produce: the flag must be `-j`, the
/// count must be an accepted worker count, and the scan then targets the
/// final argument's text with that many workers. The flag is judged before
/// the count, the count before anything else.
pub open spec fn flagged_parse_result(
    flag: Seq<char>,
    count_text: Seq<char>,
    ip: Seq<char>,
    r: Result<Command, CliError>,
) -> bool {
    if flag != "-j"@ {
        r matches Err(e) && e is UnknownFlag
    } else if !is_thread_count(count_text) {
        r matches Err(e) && e is InvalidThreadCount
    } else {
        r matches Ok(c) && (c matches Command::Run(a) && a.wf() && a.ip_text@ == ip
            && a.threads as int == numeral_val(count_text))
    }
}

impl Arguments {
    /// Judge a full command line (program name included): two arguments are
    /// the single-address shape, four the flagged shape, and any other count
    /// is rejected outright.
    pub fn new(args: &Vec<String>) -> (r: Result<Command, CliError>)
        ensures
            args@.len() != 2 && args@.len() != 4 ==> (r matches Err(e) && e is InvalidArgCount),
            args@.len() == 2 ==> single_parse_result(args@[1]@, r),
            args@.len() == 4 ==> flagged_parse_result(args@[1]@, args@[2]@, args@[3]@, r),
    {
        if args.len() == 2 {
            Self::parse_single(&args[1])
        } else if args.len() == 4 {
            Self::parse_flagged(args)
        } else {
            Err(CliError::InvalidArgCount)
        }
    }

    /// Judge the single-argument shape.
    pub fn parse_single(arg: &String) -> (r: Result<Command, CliError>)
        ensures
            single_parse_result(arg@, r),
    {
        if str_eq(arg.as_str(), "-h") || str_eq(arg.as_str(), "-help") {
            Ok(Command::Help)
        } else {
            Ok(Command::Run(Arguments { ip_text: arg.clone(), threads: 4 }))
        }
    }

    /// Judge the flagged shape `<program> -j <THREADS> <IP>`.
    pub fn parse_flagged(args: &Vec<String>) -> (r: Result<Command, CliError>)
        requires
            args@.len() == 4,
        ensures
            flagged_parse_result(args@[1]@, args@[2]@, args@[3]@, r),
    {
        if !str_eq(args[1].as_str(), "-j") {
            return Err(CliError::UnknownFlag);
        }
        match parse_u16(args[2].as_str()) {
            None => Err(CliError::InvalidThreadCount),
            Some(t) => {
                if t == 0 {
                    Err(CliError::InvalidThreadCount)
                } else {
                    Ok(Command::Run(Arguments { ip_text: args[3].clone(), threads: t }))
                }
            },
        }
    }
}

} // verus!
