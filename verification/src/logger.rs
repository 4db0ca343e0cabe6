//! Log settings: human-readable sizes and the layout of the rolling log file.
use crate::text::{self, NumberFault};
use vstd::prelude::*;

verus! {

/// How many rolled-over log files are kept beside the current one.
pub const MAX_ARCHIVED_LOGS: u32 = 1;

/// Layout of a log line: time, level and message.
pub const LOG_PATTERN: &'static str = "{d(%Y-%m-%d %H:%M:%S)} {l} - {m}\n";

/// A text that is not a size.
#[derive(Debug, Clone, PartialEq)]
pub struct SizeError {
    pub size: String,
    /// What is wrong with the number.
    pub cause: NumberFault,
}

impl SizeError {
    /// The text of the error.
    pub fn message(&self) -> (r: String)
        ensures
            r@ == "Invalid size '"@ + self.size@ + "': "@ + text::fault_text(self.cause),
    {
        "Invalid size '".to_owned().concat(self.size.as_str()).concat("': ").concat(
            self.cause.message(),
        )
    }
}

/// The unit that ends an upper-case size: the length of its name and its number of bytes.
pub open spec fn size_unit(text: Seq<char>) -> (nat, nat) {
    if text::ends_with(text, seq!['G', 'B']) {
        (2, 1073741824)
    } else if text::ends_with(text, seq!['G']) {
        (1, 1073741824)
    } else if text::ends_with(text, seq!['M', 'B']) {
        (2, 1048576)
    } else if text::ends_with(text, seq!['M']) {
        (1, 1048576)
    } else if text::ends_with(text, seq!['K', 'B']) {
        (2, 1024)
    } else if text::ends_with(text, seq!['K']) {
        (1, 1024)
    } else if text::ends_with(text, seq!['B']) {
        (1, 1)
    } else {
        (0, 1)
    }
}

/// A size as it is read: without white space around it, in upper case.
pub open spec fn normal_size(size: Seq<char>) -> Seq<char> {
    text::uppercase(text::trimmed(size))
}

/// How many bytes the unit of `size` stands for.
pub open spec fn size_multiplier(size: Seq<char>) -> nat {
    size_unit(normal_size(size)).1
}

/// What stands in front of the unit of `size`.
pub open spec fn size_digits(size: Seq<char>) -> Seq<char> {
    let text = normal_size(size);
    text::trimmed(text.take(text.len() - size_unit(text).0))
}

/// The number in front of the unit of `size`, if there is one.
pub open spec fn size_number(size: Seq<char>) -> Option<nat> {
    text::number(size_digits(size))
}

/// The number of bytes that `size` denotes, if it denotes one.
pub open spec fn size_bytes(size: Seq<char>) -> Option<nat> {
    match size_number(size) {
        Some(n) => Some(n * size_multiplier(size)),
        None => None,
    }
}

/// The error says what is wrong with `size`: its number is at fault, or its bytes do not fit.
pub open spec fn bad_size(e: SizeError, size: Seq<char>) -> bool {
    &&& e.size@ == size
    &&& match size_bytes(size) {
        Some(n) => n > u64::MAX && e.cause == NumberFault::TooLarge,
        None => e.cause == text::number_fault(size_digits(size)),
    }
}

/// The two kinds of unit name: a letter, and a letter with a `B` behind it.
fn ends_with_letters(text: &Vec<char>, first: char, second: Option<char>) -> (r: bool)
    ensures
        second matches Some(c) ==> r == text::ends_with(text@, seq![first, c]),
        second is None ==> r == text::ends_with(text@, seq![first]),
{
    let n: usize = text.len();
    match second {
        Some(c) => {
            proof {
                text::lemma_ends_with_two(text@, first, c);
            }
            n >= 2 && text[n - 2] == first && text[n - 1] == c
        },
        None => {
            proof {
                text::lemma_ends_with_one(text@, first);
            }
            n >= 1 && text[n - 1] == first
        },
    }
}

/// The length and the value of the unit that ends `text`.
fn unit_of(text: &Vec<char>) -> (r: (usize, u64))
    ensures
        r.0 <= text.len(),
        (r.0 as nat, r.1 as nat) == size_unit(text@),
{
    if ends_with_letters(text, 'G', Some('B')) {
        (2, 1073741824)
    } else if ends_with_letters(text, 'G', None) {
        (1, 1073741824)
    } else if ends_with_letters(text, 'M', Some('B')) {
        (2, 1048576)
    } else if ends_with_letters(text, 'M', None) {
        (1, 1048576)
    } else if ends_with_letters(text, 'K', Some('B')) {
        (2, 1024)
    } else if ends_with_letters(text, 'K', None) {
        (1, 1024)
    } else if ends_with_letters(text, 'B', None) {
        (1, 1)
    } else {
        (0, 1)
    }
}

/// `size` without white space around it, in upper case.
fn normalize(size: &str) -> (r: Vec<char>)
    ensures
        r@ == normal_size(size@),
{
    let v = text::chars_of(size);
    let (a, b) = text::trim_range(&v, 0, v.len());
    assert(v@.subrange(0, v@.len() as int) =~= size@);
    let mut out: Vec<char> = Vec::new();
    let mut i: usize = a;
    while i < b
        invariant
            a <= i <= b <= v.len(),
            out@ =~= text::uppercase(v@.subrange(a as int, i as int)),
        decreases b - i,
    {
        out.push(text::to_upper(v[i]));
        i = i + 1;
    }
    out
}

/// Reads a size as its number and the bytes that its unit stands for.
pub fn size_parts(size: &str) -> (r: Result<(u64, u64), SizeError>)
    ensures
        r matches Ok(p) ==> size_number(size@) == Some(p.0 as nat) && p.1 == size_multiplier(size@),
        r matches Err(e) ==> {
            &&& size_number(size@) is None
            &&& e.size@ == size@
            &&& e.cause == text::number_fault(size_digits(size@))
        },
{
    let text = normalize(size);
    let (len, multiplier) = unit_of(&text);
    let end: usize = text.len() - len;
    let (a, b) = text::trim_range(&text, 0, end);
    assert(text@.subrange(0, end as int) =~= text@.take(end as int));
    match text::parse_range(&text, a, b) {
        Ok(n) => Ok((n, multiplier)),
        Err(cause) => Err(SizeError { size: size.to_owned(), cause }),
    }
}

/// Parses a human-readable size like "500K", "10M", "10MB" or "1GB"
/// (case-insensitive) into a number of bytes. A size that does not fit is an error.
pub fn parse_size(size: &str) -> (r: Result<u64, SizeError>)
    ensures
        r matches Ok(n) ==> size_bytes(size@) == Some(n as nat),
        r matches Err(e) ==> bad_size(e, size@),
{
    match size_parts(size) {
        Ok((number, multiplier)) => match number.checked_mul(multiplier) {
            Some(n) => Ok(n),
            None => Err(SizeError { size: size.to_owned(), cause: NumberFault::TooLarge }),
        },
        Err(e) => Err(e),
    }
}

/// What the log set-up amounts to.
#[derive(Debug, Clone, PartialEq)]
pub enum LoggerPlan {
    /// A logger is installed already: nothing to do.
    Keep,
    /// Install a console log and a rolling file log.
    Install {
        /// Name of the current log file.
        log_file: String,
        /// Name pattern of the archived files; `{}` stands for their number.
        roll_pattern: String,
        /// How many archived files are kept.
        archived: u32,
        /// Size in bytes at which the file rolls over.
        max_bytes: u64,
    },
}

/// Plans the log set-up. A bad size is an error only where a logger is to be installed.
pub fn setup_logger(already_installed: bool, log_file: &str, max_log_size: &str) -> (r: Result<
    LoggerPlan,
    SizeError,
>)
    ensures
        already_installed ==> r == Ok::<LoggerPlan, SizeError>(LoggerPlan::Keep),
        !already_installed ==> (r matches Ok(plan) ==> {
            &&& plan matches LoggerPlan::Install { log_file: file, roll_pattern, archived, max_bytes }
            &&& file@ == log_file@
            &&& roll_pattern@ == log_file@ + seq!['.', '{', '}']
            &&& archived == MAX_ARCHIVED_LOGS
            &&& size_bytes(max_log_size@) == Some(max_bytes as nat)
        }),
        r matches Err(e) ==> !already_installed && bad_size(e, max_log_size@),
{
    if already_installed {
        return Ok(LoggerPlan::Keep);
    }
    match parse_size(max_log_size) {
        Ok(max_bytes) => {
            proof {
                reveal_strlit(".{}");
            }
            let roll_pattern = log_file.to_owned().concat(".{}");
            assert(".{}"@ =~= seq!['.', '{', '}']);
            Ok(
                LoggerPlan::Install {
                    log_file: log_file.to_owned(),
                    roll_pattern,
                    archived: MAX_ARCHIVED_LOGS,
                    max_bytes,
                },
            )
        },
        Err(e) => Err(e),
    }
}

/// Sizes that differ only in ASCII case denote the same number of bytes.
pub proof fn law_size_ignores_case(a: Seq<char>, b: Seq<char>)
    requires
        text::same_ignoring_case(a, b),
    ensures
        size_bytes(a) == size_bytes(b),
{
    text::lemma_trim_uppercase(a);
    text::lemma_trim_uppercase(b);
}

/// White space around a size does not matter.
pub proof fn law_size_ignores_padding(before: Seq<char>, size: Seq<char>, after: Seq<char>)
    requires
        forall|i: int| 0 <= i < before.len() ==> text::is_space(#[trigger] before[i]),
        forall|i: int| 0 <= i < after.len() ==> text::is_space(#[trigger] after[i]),
    ensures
        size_bytes(before + size + after) == size_bytes(size),
{
    text::lemma_trimmed_padding(before, size, after);
}

/// The unit names, with the number of bytes that each stands for.
pub open spec fn unit_bytes(name: Seq<char>) -> Option<nat> {
    if name == Seq::<char>::empty() || name == seq!['B'] {
        Some(1)
    } else if name == seq!['K'] || name == seq!['K', 'B'] {
        Some(1024)
    } else if name == seq!['M'] || name == seq!['M', 'B'] {
        Some(1048576)
    } else if name == seq!['G'] || name == seq!['G', 'B'] {
        Some(1073741824)
    } else {
        None
    }
}

/// Digits with a unit name behind them denote that many times the unit; a `B` behind the
/// letter makes no difference.
pub proof fn law_size_is_number_times_unit(digits: Seq<char>, name: Seq<char>)
    requires
        text::all_digits(digits),
        text::digits_value(digits) <= u64::MAX,
        unit_bytes(name) is Some,
    ensures
        size_bytes(digits + name) == Some(text::digits_value(digits) * unit_bytes(name)->0),
{
    let whole = digits + name;
    let n = whole.len() as int;
    let d = digits.len() as int;
    assert(text::is_digit(digits[0]));
    assert(text::is_digit(digits[d - 1]));
    assert(whole[0] == digits[0]);
    assert(n >= d + 1 ==> whole[d] == name[0]);
    assert(n >= d + 2 ==> whole[d + 1] == name[1]);
    assert(whole[d - 1] == digits[d - 1]);
    text::lemma_trimmed_same(whole);
    assert forall|i: int| 0 <= i < n implies text::upper(#[trigger] whole[i]) == whole[i] by {
        if i < d {
            assert(text::is_digit(digits[i]));
        } else {
            assert(whole[i] == name[i - d]);
        }
    }
    assert(text::uppercase(whole) =~= whole);
    text::lemma_ends_with_two(whole, 'G', 'B');
    text::lemma_ends_with_one(whole, 'G');
    text::lemma_ends_with_two(whole, 'M', 'B');
    text::lemma_ends_with_one(whole, 'M');
    text::lemma_ends_with_two(whole, 'K', 'B');
    text::lemma_ends_with_one(whole, 'K');
    text::lemma_ends_with_one(whole, 'B');
    assert(size_unit(whole) == (name.len(), unit_bytes(name)->0));
    assert(whole.take(n - name.len()) =~= digits);
    text::lemma_trimmed_same(digits);
    assert(digits[0] != '+');
}

/// A size is a number and, behind it, a letter for kilo, mega or giga and a `B`, each of them in
/// either case and each only where it is there; white space may stand around the number. It
/// denotes that many bytes, 1024 of them to the kilobyte and so on, and nothing else is a size.
pub proof fn law_size_has_number_and_unit(size: Seq<char>)
    ensures
        ({
            let whole = text::uppercase(text::trimmed(size));
            let len = whole.len();
            let b: int = if len > 0 && whole[len - 1] == 'B' {
                1
            } else {
                0
            };
            let scale = if len > b {
                whole[len - b - 1]
            } else {
                ' '
            };
            let unit: nat = if scale == 'K' {
                1024
            } else if scale == 'M' {
                1024 * 1024
            } else if scale == 'G' {
                1024 * 1024 * 1024
            } else {
                1
            };
            let end = if unit > 1 {
                len - b - 1
            } else {
                len - b
            };
            let count = text::number(text::trimmed(whole.take(end)));
            size_bytes(size) == (if count is Some {
                Some(count->0 * unit)
            } else {
                None
            })
        }),
{
    let whole = normal_size(size);
    text::lemma_ends_with_two(whole, 'G', 'B');
    text::lemma_ends_with_two(whole, 'M', 'B');
    text::lemma_ends_with_two(whole, 'K', 'B');
    text::lemma_ends_with_one(whole, 'G');
    text::lemma_ends_with_one(whole, 'M');
    text::lemma_ends_with_one(whole, 'K');
    text::lemma_ends_with_one(whole, 'B');
}

/// A size is refused where its number is none, with what is wrong with that, or where it is too
/// large; the error holds the size as it was given.
pub proof fn law_refused_size_says_why(e: SizeError, size: Seq<char>)
    requires
        bad_size(e, size),
    ensures
        e.size@ == size,
        size_bytes(size) matches Some(n) ==> n > u64::MAX && e.cause == NumberFault::TooLarge,
        size_bytes(size) is None ==> e.cause == text::number_fault(size_digits(size)),
{
}

} // verus!
