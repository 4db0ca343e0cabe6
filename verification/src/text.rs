//! Text helpers: trimming, splitting, joining, case folding and decimal numbers.
//!
//! Strings are modelled by their views, sequences of `char`.
use vstd::prelude::*;

verus! {

/// The views of a sequence of strings.
pub open spec fn views(v: Seq<String>) -> Seq<Seq<char>> {
    Seq::new(v.len(), |i: int| v[i]@)
}

/// Unicode white space, the characters that `str::trim` removes.
pub open spec fn is_space(c: char) -> bool {
    let n = c as u32;
    ||| 0x9 <= n <= 0xd
    ||| n == 0x20
    ||| n == 0x85
    ||| n == 0xa0
    ||| n == 0x1680
    ||| 0x2000 <= n <= 0x200a
    ||| n == 0x2028
    ||| n == 0x2029
    ||| n == 0x202f
    ||| n == 0x205f
    ||| n == 0x3000
}

/// `s` without its leading white space.
pub open spec fn trim_start(s: Seq<char>) -> Seq<char>
    decreases s.len(),
{
    if s.len() > 0 && is_space(s[0]) {
        trim_start(s.drop_first())
    } else {
        s
    }
}

/// `s` without its trailing white space.
pub open spec fn trim_end(s: Seq<char>) -> Seq<char>
    decreases s.len(),
{
    if s.len() > 0 && is_space(s.last()) {
        trim_end(s.drop_last())
    } else {
        s
    }
}

/// `s` without white space at either end.
pub open spec fn trimmed(s: Seq<char>) -> Seq<char> {
    trim_end(trim_start(s))
}

/// `s` without its trailing `/` characters.
pub open spec fn trim_slashes(s: Seq<char>) -> Seq<char>
    decreases s.len(),
{
    if s.len() > 0 && s.last() == '/' {
        trim_slashes(s.drop_last())
    } else {
        s
    }
}

/// The pieces of `s` between occurrences of `sep`; there is always at least one.
pub open spec fn split_on(s: Seq<char>, sep: char) -> Seq<Seq<char>>
    decreases s.len(),
{
    if s.len() == 0 {
        seq![Seq::<char>::empty()]
    } else {
        let before = split_on(s.drop_last(), sep);
        if s.last() == sep {
            before.push(Seq::<char>::empty())
        } else {
            before.drop_last().push(before.last().push(s.last()))
        }
    }
}

/// `parts` in order, with `sep` between neighbours.
pub open spec fn join(parts: Seq<Seq<char>>, sep: Seq<char>) -> Seq<char>
    decreases parts.len(),
{
    if parts.len() == 0 {
        Seq::<char>::empty()
    } else if parts.len() == 1 {
        parts[0]
    } else {
        join(parts.drop_last(), sep) + sep + parts.last()
    }
}

/// The parts that are not blank, each without white space at its ends.
pub open spec fn non_blank(parts: Seq<Seq<char>>) -> Seq<Seq<char>>
    decreases parts.len(),
{
    if parts.len() == 0 {
        Seq::<Seq<char>>::empty()
    } else {
        let before = non_blank(parts.drop_last());
        let last = trimmed(parts.last());
        if last.len() == 0 {
            before
        } else {
            before.push(last)
        }
    }
}

/// ASCII upper case; every other character is unchanged.
pub open spec fn upper(c: char) -> char {
    if 'a' as u32 <= c as u32 <= 'z' as u32 {
        (c as u32 - 32) as char
    } else {
        c
    }
}

/// ASCII upper case of a whole text.
pub open spec fn uppercase(s: Seq<char>) -> Seq<char> {
    Seq::new(s.len(), |i: int| upper(s[i]))
}

/// Equality that does not tell ASCII upper case from lower case.
pub open spec fn same_ignoring_case(a: Seq<char>, b: Seq<char>) -> bool {
    uppercase(a) == uppercase(b)
}

pub open spec fn ends_with(s: Seq<char>, suffix: Seq<char>) -> bool {
    suffix.len() <= s.len() && s.skip(s.len() - suffix.len()) == suffix
}

pub open spec fn is_digit(c: char) -> bool {
    '0' as u32 <= c as u32 <= '9' as u32
}

/// Digits only, and at least one of them.
pub open spec fn all_digits(s: Seq<char>) -> bool {
    s.len() > 0 && forall|i: int| 0 <= i < s.len() ==> is_digit(#[trigger] s[i])
}

/// The number that a text of decimal digits denotes.
pub open spec fn digits_value(s: Seq<char>) -> nat
    decreases s.len(),
{
    if s.len() == 0 {
        0
    } else {
        digits_value(s.drop_last()) * 10 + (s.last() as u32 - '0' as u32) as nat
    }
}

/// `s` without a leading `+`.
pub open spec fn without_plus(s: Seq<char>) -> Seq<char> {
    if s.len() > 0 && s[0] == '+' {
        s.skip(1)
    } else {
        s
    }
}

/// What `s` denotes as an unsigned 64-bit decimal number: digits, with an optional `+` in front.
pub open spec fn number(s: Seq<char>) -> Option<nat> {
    let digits = without_plus(s);
    if all_digits(digits) && digits_value(digits) <= u64::MAX {
        Some(digits_value(digits))
    } else {
        None
    }
}

/// Why a text denotes no unsigned 64-bit decimal number.
#[derive(Debug, Clone, Copy, PartialEq, Eq, Structural)]
pub enum NumberFault {
    /// There is nothing to read.
    Empty,
    /// A character is not a digit.
    InvalidDigit,
    /// The number does not fit.
    TooLarge,
}

/// Whether the first `k` digits already denote more than fits.
pub open spec fn overflows_at(digits: Seq<char>, k: int) -> bool {
    &&& 0 < k <= digits.len()
    &&& all_digits(digits.take(k))
    &&& digits_value(digits.take(k)) > u64::MAX
}

/// What is wrong with a text that denotes no number, read from left to right.
pub open spec fn number_fault(s: Seq<char>) -> NumberFault {
    if s.len() == 0 {
        NumberFault::Empty
    } else if exists|k: int| overflows_at(without_plus(s), k) {
        NumberFault::TooLarge
    } else {
        NumberFault::InvalidDigit
    }
}

/// The text of a fault.
pub open spec fn fault_text(fault: NumberFault) -> Seq<char> {
    match fault {
        NumberFault::Empty => "cannot parse integer from empty string"@,
        NumberFault::InvalidDigit => "invalid digit found in string"@,
        NumberFault::TooLarge => "number too large to fit in target type"@,
    }
}

impl NumberFault {
    /// The text of the fault.
    pub fn message(&self) -> (r: &'static str)
        ensures
            r@ == fault_text(*self),
    {
        match self {
            NumberFault::Empty => "cannot parse integer from empty string",
            NumberFault::InvalidDigit => "invalid digit found in string",
            NumberFault::TooLarge => "number too large to fit in target type",
        }
    }
}

/// The character for a decimal digit.
pub open spec fn digit_char(d: nat) -> char {
    ('0' as u32 + d) as char
}

/// The shortest decimal notation of `n`.
pub open spec fn decimal(n: nat) -> Seq<char>
    decreases n,
{
    if n < 10 {
        seq![digit_char(n)]
    } else {
        decimal(n / 10).push(digit_char(n % 10))
    }
}

/// The characters of `s`, one by one.
pub fn chars_of(s: &str) -> (v: Vec<char>)
    ensures
        v@ == s@,
{
    let mut v: Vec<char> = Vec::new();
    for c in it: s.chars()
        invariant
            v@ == it.seq().take(it.index()),
            it.seq() == s@,
    {
        v.push(c);
    }
    v
}

/// Whether two texts are the same.
pub fn same(a: &str, b: &str) -> (r: bool)
    ensures
        r == (a@ == b@),
{
    a.to_owned() == b.to_owned()
}

/// Whether `c` is white space.
pub fn space(c: char) -> (r: bool)
    ensures
        r == is_space(c),
{
    let n: u32 = c as u32;
    (0x9 <= n && n <= 0xd) || n == 0x20 || n == 0x85 || n == 0xa0 || n == 0x1680 || (0x2000 <= n
        && n <= 0x200a) || n == 0x2028 || n == 0x2029 || n == 0x202f || n == 0x205f || n == 0x3000
}

/// The part of `v[from..to]` that is left when white space goes from both ends.
pub fn trim_range(v: &Vec<char>, from: usize, to: usize) -> (r: (usize, usize))
    requires
        from <= to <= v.len(),
    ensures
        from <= r.0 <= r.1 <= to,
        v@.subrange(r.0 as int, r.1 as int) == trimmed(v@.subrange(from as int, to as int)),
{
    let mut a: usize = from;
    while a < to && space(v[a])
        invariant
            from <= a <= to <= v.len(),
            trim_start(v@.subrange(from as int, to as int)) == trim_start(
                v@.subrange(a as int, to as int),
            ),
        decreases to - a,
    {
        assert(v@.subrange(a as int, to as int).drop_first() =~= v@.subrange(a + 1, to as int));
        a = a + 1;
    }
    assert(trim_start(v@.subrange(a as int, to as int)) == v@.subrange(a as int, to as int));
    let mut b: usize = to;
    while b > a && space(v[b - 1])
        invariant
            a <= b <= to <= v.len(),
            trim_end(v@.subrange(a as int, to as int)) == trim_end(
                v@.subrange(a as int, b as int),
            ),
        decreases b,
    {
        assert(v@.subrange(a as int, b as int).drop_last() =~= v@.subrange(a as int, b - 1));
        b = b - 1;
    }
    (a, b)
}

/// `s` without white space at either end.
pub fn trim<'a>(s: &'a str) -> (r: &'a str)
    ensures
        r@ == trimmed(s@),
{
    let v = chars_of(s);
    let (a, b) = trim_range(&v, 0, v.len());
    assert(v@.subrange(0, v@.len() as int) =~= s@);
    s.substring_char(a, b)
}

/// `s` without its trailing `/` characters.
pub fn without_trailing_slashes<'a>(s: &'a str) -> (r: &'a str)
    ensures
        r@ == trim_slashes(s@),
{
    let v = chars_of(s);
    let mut b: usize = v.len();
    assert(v@.subrange(0, b as int) =~= s@);
    while b > 0 && v[b - 1] == '/'
        invariant
            b <= v.len(),
            v@ == s@,
            trim_slashes(s@) == trim_slashes(v@.subrange(0, b as int)),
        decreases b,
    {
        assert(v@.subrange(0, b as int).drop_last() =~= v@.subrange(0, b - 1));
        b = b - 1;
    }
    s.substring_char(0, b)
}

/// The pieces of `s` between occurrences of `sep`.
pub fn split(s: &str, sep: char) -> (r: Vec<String>)
    ensures
        views(r@) == split_on(s@, sep),
{
    let v = chars_of(s);
    let mut done: Vec<String> = Vec::new();
    let mut start: usize = 0;
    let mut i: usize = 0;
    assert(v@.take(0) =~= Seq::<char>::empty());
    assert(views(done@).push(v@.subrange(0, 0)) =~= seq![Seq::<char>::empty()]);
    while i < v.len()
        invariant
            start <= i <= v.len(),
            v@ == s@,
            split_on(v@.take(i as int), sep) == views(done@).push(
                v@.subrange(start as int, i as int),
            ),
        decreases v.len() - i,
    {
        let ghost before = views(done@);
        assert(v@.take(i + 1).drop_last() =~= v@.take(i as int));
        if v[i] == sep {
            let piece = s.substring_char(start, i).to_owned();
            let ghost piece_view = piece@;
            done.push(piece);
            start = i + 1;
            assert(views(done@) =~= before.push(piece_view));
            assert(v@.subrange(start as int, i + 1) =~= Seq::<char>::empty());
        } else {
            assert(before.push(v@.subrange(start as int, i as int)).drop_last() =~= before);
            assert(v@.subrange(start as int, i + 1) =~= v@.subrange(start as int, i as int).push(
                v@[i as int],
            ));
        }
        i = i + 1;
    }
    let last = s.substring_char(start, v.len()).to_owned();
    let ghost before = views(done@);
    done.push(last);
    assert(v@.take(v@.len() as int) =~= s@);
    assert(views(done@) =~= before.push(s@.subrange(start as int, s@.len() as int)));
    done
}

/// The pieces of `s` between commas that are not blank, each trimmed.
pub fn comma_list(s: &str) -> (r: Vec<String>)
    ensures
        views(r@) == non_blank(split_on(s@, ',')),
{
    let parts = split(s, ',');
    let mut kept: Vec<String> = Vec::new();
    let mut i: usize = 0;
    assert(views(kept@) =~= non_blank(views(parts@).take(0)));
    while i < parts.len()
        invariant
            i <= parts.len(),
            views(kept@) == non_blank(views(parts@).take(i as int)),
        decreases parts.len() - i,
    {
        let ghost before = views(kept@);
        assert(views(parts@).take(i + 1).drop_last() =~= views(parts@).take(i as int));
        let part = trim(parts[i].as_str());
        if !part.is_empty() {
            kept.push(part.to_owned());
            assert(views(kept@) =~= before.push(part@));
        }
        i = i + 1;
    }
    assert(views(parts@).take(parts@.len() as int) =~= views(parts@));
    kept
}

/// `parts` in order, with `sep` between neighbours.
pub fn join_with(parts: &Vec<String>, sep: &str) -> (r: String)
    ensures
        r@ == join(views(parts@), sep@),
{
    let mut out = String::new();
    let mut i: usize = 0;
    while i < parts.len()
        invariant
            i <= parts.len(),
            out@ == join(views(parts@).take(i as int), sep@),
        decreases parts.len() - i,
    {
        assert(views(parts@).take(i + 1).drop_last() =~= views(parts@).take(i as int));
        if i > 0 {
            out.append(sep);
        }
        out.append(parts[i].as_str());
        assert(out@ =~= join(views(parts@).take(i + 1), sep@));
        i = i + 1;
    }
    assert(views(parts@).take(parts@.len() as int) =~= views(parts@));
    out
}

/// Whether one of `v` is `s`.
pub fn contains(v: &Vec<String>, s: &str) -> (r: bool)
    ensures
        r == views(v@).contains(s@),
{
    let mut i: usize = 0;
    while i < v.len()
        invariant
            i <= v.len(),
            forall|j: int| 0 <= j < i ==> views(v@)[j] != s@,
        decreases v.len() - i,
    {
        if same(v[i].as_str(), s) {
            assert(views(v@)[i as int] == s@);
            return true;
        }
        i = i + 1;
    }
    false
}

/// ASCII upper case of one character.
pub fn to_upper(c: char) -> (r: char)
    ensures
        r == upper(c),
{
    if 'a' <= c && c <= 'z' {
        ((c as u8) - 32) as char
    } else {
        c
    }
}

/// Whether two texts differ at most in ASCII case.
pub fn equal_ignoring_case(a: &str, b: &str) -> (r: bool)
    ensures
        r == same_ignoring_case(a@, b@),
{
    let x = chars_of(a);
    let y = chars_of(b);
    if x.len() != y.len() {
        assert(uppercase(a@).len() != uppercase(b@).len());
        return false;
    }
    let mut i: usize = 0;
    while i < x.len()
        invariant
            i <= x.len() == y.len(),
            x@ == a@,
            y@ == b@,
            forall|j: int| 0 <= j < i ==> upper(x@[j]) == upper(y@[j]),
        decreases x.len() - i,
    {
        if to_upper(x[i]) != to_upper(y[i]) {
            assert(uppercase(a@)[i as int] != uppercase(b@)[i as int]);
            return false;
        }
        i = i + 1;
    }
    assert(uppercase(a@) =~= uppercase(b@));
    true
}

/// Adding digits at the end of a text never lowers its value.
proof fn lemma_digits_value_grows(s: Seq<char>, n: int)
    requires
        0 <= n <= s.len(),
        forall|i: int| 0 <= i < s.len() ==> is_digit(#[trigger] s[i]),
    ensures
        digits_value(s.take(n)) <= digits_value(s),
    decreases s.len() - n,
{
    if n == s.len() {
        assert(s.take(n) =~= s);
    } else {
        lemma_digits_value_grows(s, n + 1);
        assert(s.take(n + 1).drop_last() =~= s.take(n));
    }
}

/// The unsigned 64-bit number that `v[from..to]` denotes, if it denotes one.
pub fn parse_range(v: &Vec<char>, from: usize, to: usize) -> (r: Result<
    u64,
    NumberFault,
>)
    requires
        from <= to <= v.len(),
    ensures
        r matches Ok(n) ==> number(v@.subrange(from as int, to as int)) == Some(n as nat),
        r matches Err(e) ==> {
            &&& number(v@.subrange(from as int, to as int)) is None
            &&& e == number_fault(v@.subrange(from as int, to as int))
        },
{
    let ghost text = v@.subrange(from as int, to as int);
    let mut start: usize = from;
    if from < to && v[from] == '+' {
        start = from + 1;
    }
    let ghost digits = v@.subrange(start as int, to as int);
    assert(digits =~= without_plus(text));
    if start == to {
        assert(!exists|k: int| overflows_at(digits, k));
        return if from == to {
            Err(NumberFault::Empty)
        } else {
            Err(NumberFault::InvalidDigit)
        };
    }
    let mut n: u64 = 0;
    let mut i: usize = start;
    assert(digits.take(0) =~= Seq::<char>::empty());
    while i < to
        invariant
            start <= i <= to <= v.len(),
            start < to,
            digits == v@.subrange(start as int, to as int),
            digits == without_plus(text),
            text == v@.subrange(from as int, to as int),
            forall|j: int| 0 <= j < i - start ==> is_digit(#[trigger] digits[j]),
            n == digits_value(digits.take(i - start)),
        decreases to - i,
    {
        let c = v[i];
        assert(c == digits[i - start]);
        let k: u32 = c as u32;
        if k < 48 || k > 57 {
            assert(!is_digit(digits[i - start]));
            proof {
                assert forall|k: int| !overflows_at(digits, k) by {
                    if overflows_at(digits, k) {
                        if k > i - start {
                            assert(digits.take(k)[i - start] == digits[i - start]);
                        } else {
                            let front = digits.take(i - start);
                            assert(front.take(k) =~= digits.take(k));
                            lemma_digits_value_grows(front, k);
                        }
                    }
                }
            }
            return Err(NumberFault::InvalidDigit);
        }
        let d: u64 = (k - 48) as u64;
        assert(digits.take(i - start + 1).drop_last() =~= digits.take(i - start));
        assert(digits_value(digits.take(i - start + 1)) == n * 10 + d);
        if n > (u64::MAX - d) / 10 {
            proof {
                if all_digits(digits) {
                    lemma_digits_value_grows(digits, i - start + 1);
                }
                assert(overflows_at(digits, i - start + 1));
            }
            return Err(NumberFault::TooLarge);
        }
        n = n * 10 + d;
        i = i + 1;
    }
    assert(digits.take(to - start) =~= digits);
    Ok(n)
}

/// The decimal digit `d` as text.
fn digit_text(d: u64) -> (r: &'static str)
    requires
        d < 10,
    ensures
        r@ == seq![digit_char(d as nat)],
{
    let r = match d {
        0 => "0",
        1 => "1",
        2 => "2",
        3 => "3",
        4 => "4",
        5 => "5",
        6 => "6",
        7 => "7",
        8 => "8",
        _ => "9",
    };
    proof {
        reveal_strlit("0");
        reveal_strlit("1");
        reveal_strlit("2");
        reveal_strlit("3");
        reveal_strlit("4");
        reveal_strlit("5");
        reveal_strlit("6");
        reveal_strlit("7");
        reveal_strlit("8");
        reveal_strlit("9");
    }
    assert(r@ =~= seq![digit_char(d as nat)]);
    r
}

/// The shortest decimal notation of `n`.
pub fn decimal_text(n: u64) -> (r: String)
    ensures
        r@ == decimal(n as nat),
    decreases n,
{
    if n < 10 {
        digit_text(n).to_owned()
    } else {
        let head = decimal_text(n / 10);
        let r = head.concat(digit_text(n % 10));
        assert(r@ =~= decimal((n / 10) as nat).push(digit_char((n % 10) as nat)));
        r
    }
}

/// Changing case neither makes nor removes white space.
pub proof fn lemma_upper_space(c: char)
    ensures
        is_space(upper(c)) == is_space(c),
{
}

proof fn lemma_trim_start_uppercase(s: Seq<char>)
    ensures
        trim_start(uppercase(s)) == uppercase(trim_start(s)),
    decreases s.len(),
{
    if s.len() > 0 {
        lemma_upper_space(s[0]);
        if is_space(s[0]) {
            assert(uppercase(s).drop_first() =~= uppercase(s.drop_first()));
            lemma_trim_start_uppercase(s.drop_first());
        }
    }
}

proof fn lemma_trim_end_uppercase(s: Seq<char>)
    ensures
        trim_end(uppercase(s)) == uppercase(trim_end(s)),
    decreases s.len(),
{
    if s.len() > 0 {
        lemma_upper_space(s.last());
        if is_space(s.last()) {
            assert(uppercase(s).drop_last() =~= uppercase(s.drop_last()));
            lemma_trim_end_uppercase(s.drop_last());
        }
    }
}

/// Trimming and changing case can be done in either order.
pub proof fn lemma_trim_uppercase(s: Seq<char>)
    ensures
        trimmed(uppercase(s)) == uppercase(trimmed(s)),
{
    lemma_trim_start_uppercase(s);
    lemma_trim_end_uppercase(trim_start(s));
}

/// A text that neither starts nor ends with white space is left as it is.
pub proof fn lemma_trimmed_same(s: Seq<char>)
    requires
        s.len() > 0 ==> !is_space(s[0]) && !is_space(s.last()),
    ensures
        trimmed(s) == s,
{
}

proof fn lemma_trim_start_padding(pad: Seq<char>, s: Seq<char>)
    requires
        forall|i: int| 0 <= i < pad.len() ==> is_space(#[trigger] pad[i]),
    ensures
        trim_start(pad + s) == trim_start(s),
    decreases pad.len(),
{
    if pad.len() == 0 {
        assert(pad + s =~= s);
    } else {
        assert((pad + s)[0] == pad[0]);
        assert((pad + s).drop_first() =~= pad.drop_first() + s);
        lemma_trim_start_padding(pad.drop_first(), s);
    }
}

proof fn lemma_trim_end_padding(s: Seq<char>, pad: Seq<char>)
    requires
        forall|i: int| 0 <= i < pad.len() ==> is_space(#[trigger] pad[i]),
    ensures
        trim_end(s + pad) == trim_end(s),
    decreases pad.len(),
{
    if pad.len() == 0 {
        assert(s + pad =~= s);
    } else {
        assert((s + pad).last() == pad.last());
        assert((s + pad).drop_last() =~= s + pad.drop_last());
        lemma_trim_end_padding(s, pad.drop_last());
    }
}

/// Either all of `s` is white space, or trimming its start leaves the padding behind it alone.
proof fn lemma_trim_start_keeps_tail(s: Seq<char>, pad: Seq<char>)
    requires
        forall|i: int| 0 <= i < pad.len() ==> is_space(#[trigger] pad[i]),
    ensures
        trim_start(s).len() > 0 ==> trim_start(s + pad) == trim_start(s) + pad,
        trim_start(s).len() == 0 ==> trim_start(s + pad).len() == 0,
    decreases s.len(),
{
    if s.len() == 0 {
        lemma_trim_start_padding(pad, s);
        assert(s + pad =~= pad + s);
    } else {
        assert((s + pad)[0] == s[0]);
        if is_space(s[0]) {
            assert((s + pad).drop_first() =~= s.drop_first() + pad);
            lemma_trim_start_keeps_tail(s.drop_first(), pad);
        }
    }
}

/// White space around a text does not matter to what is left of it.
pub proof fn lemma_trimmed_padding(before: Seq<char>, s: Seq<char>, after: Seq<char>)
    requires
        forall|i: int| 0 <= i < before.len() ==> is_space(#[trigger] before[i]),
        forall|i: int| 0 <= i < after.len() ==> is_space(#[trigger] after[i]),
    ensures
        trimmed(before + s + after) == trimmed(s),
{
    assert(before + s + after =~= before + (s + after));
    lemma_trim_start_padding(before, s + after);
    lemma_trim_start_keeps_tail(s, after);
    if trim_start(s).len() > 0 {
        lemma_trim_end_padding(trim_start(s), after);
    } else {
        assert(trim_start(s + after) =~= trim_start(s));
    }
}

/// Ending with one given character.
pub proof fn lemma_ends_with_one(s: Seq<char>, c: char)
    ensures
        ends_with(s, seq![c]) == (s.len() >= 1 && s[s.len() - 1] == c),
{
    if s.len() >= 1 {
        assert(s.skip(s.len() - 1)[0] == s[s.len() - 1]);
        assert(seq![c][0] == c);
        if s[s.len() - 1] == c {
            assert(s.skip(s.len() - 1) =~= seq![c]);
        }
    }
}

/// Ending with two given characters.
pub proof fn lemma_ends_with_two(s: Seq<char>, c: char, d: char)
    ensures
        ends_with(s, seq![c, d]) == (s.len() >= 2 && s[s.len() - 2] == c && s[s.len() - 1] == d),
{
    if s.len() >= 2 {
        assert(s.skip(s.len() - 2)[0] == s[s.len() - 2]);
        assert(s.skip(s.len() - 2)[1] == s[s.len() - 1]);
        assert(seq![c, d][0] == c && seq![c, d][1] == d);
        if s[s.len() - 2] == c && s[s.len() - 1] == d {
            assert(s.skip(s.len() - 2) =~= seq![c, d]);
        }
    }
}

/// A text always splits into at least one piece.
pub proof fn lemma_split_not_empty(s: Seq<char>, sep: char)
    ensures
        split_on(s, sep).len() > 0,
    decreases s.len(),
{
    if s.len() > 0 {
        lemma_split_not_empty(s.drop_last(), sep);
    }
}

/// Splitting a text at a separator splits its two sides.
pub proof fn lemma_split_at(a: Seq<char>, b: Seq<char>, sep: char)
    ensures
        split_on(a + seq![sep] + b, sep) == split_on(a, sep) + split_on(b, sep),
    decreases b.len(),
{
    let whole = a + seq![sep] + b;
    let sa = split_on(a, sep);
    if b.len() == 0 {
        assert(whole.drop_last() =~= a);
        assert(sa.push(Seq::<char>::empty()) =~= sa + seq![Seq::<char>::empty()]);
    } else {
        let shorter = b.drop_last();
        lemma_split_at(a, shorter, sep);
        lemma_split_not_empty(shorter, sep);
        let sb = split_on(shorter, sep);
        assert(whole.drop_last() =~= a + seq![sep] + shorter);
        assert(whole.last() == b.last());
        if b.last() == sep {
            assert((sa + sb).push(Seq::<char>::empty()) =~= sa + sb.push(Seq::<char>::empty()));
        } else {
            assert((sa + sb).last() == sb.last());
            assert((sa + sb).drop_last().push(sb.last().push(b.last())) =~= sa
                + sb.drop_last().push(sb.last().push(b.last())));
        }
    }
}

/// A text without a separator is its own only piece.
pub proof fn lemma_split_none(s: Seq<char>, sep: char)
    requires
        !s.contains(sep),
    ensures
        split_on(s, sep) == seq![s],
    decreases s.len(),
{
    if s.len() == 0 {
        assert(s =~= Seq::<char>::empty());
    } else {
        let shorter = s.drop_last();
        assert forall|i: int| 0 <= i < shorter.len() implies shorter[i] != sep by {
            assert(s.contains(s[i]));
        }
        lemma_split_none(shorter, sep);
        assert(s.contains(s.last()));
        assert(seq![shorter].drop_last().push(shorter.push(s.last())) =~= seq![s]) by {
            assert(shorter.push(s.last()) =~= s);
        }
    }
}

/// Splitting a text at a separator and joining the pieces by it gives the text back, and no
/// piece holds the separator.
pub proof fn law_split_then_join(s: Seq<char>, sep: char)
    ensures
        join(split_on(s, sep), seq![sep]) == s,
        forall|i: int|
            0 <= i < split_on(s, sep).len() ==> !(#[trigger] split_on(s, sep)[i]).contains(sep),
    decreases s.len(),
{
    let all = split_on(s, sep);
    if s.len() == 0 {
        assert(join(all, seq![sep]) =~= s);
    } else {
        let shorter = s.drop_last();
        let before = split_on(shorter, sep);
        law_split_then_join(shorter, sep);
        lemma_split_not_empty(shorter, sep);
        if s.last() == sep {
            assert(all.drop_last() =~= before);
            assert(join(all, seq![sep]) =~= s);
        } else {
            let piece = before.last();
            assert(all.drop_last() =~= before.drop_last());
            assert(!before[before.len() - 1].contains(sep));
            assert forall|j: int| 0 <= j < all.last().len() implies all.last()[j] != sep by {
                if j < piece.len() {
                    assert(piece.contains(piece[j]));
                }
            }
            if before.len() == 1 {
                assert(join(all, seq![sep]) =~= s);
            } else {
                let front = join(before.drop_last(), seq![sep]) + seq![sep];
                assert(front + piece =~= shorter);
                assert(join(all, seq![sep]) == front + piece.push(s.last()));
                assert(front + piece.push(s.last()) =~= (front + piece).push(s.last()));
                assert(shorter.push(s.last()) =~= s);
            }
            assert forall|i: int| 0 <= i < all.len() implies !(#[trigger] all[i]).contains(sep) by {
                if i < all.len() - 1 {
                    assert(all[i] == before[i]);
                }
            }
        }
    }
}

/// Trimming takes white space from both ends and nothing else.
pub proof fn law_trimmed_is_the_middle(s: Seq<char>)
    ensures
        exists|from: int, to: int|
            #![trigger s.subrange(from, to)]
            {
                &&& 0 <= from <= to <= s.len()
                &&& trimmed(s) == s.subrange(from, to)
                &&& forall|i: int| 0 <= i < from ==> is_space(#[trigger] s[i])
                &&& forall|i: int| to <= i < s.len() ==> is_space(#[trigger] s[i])
            },
        trimmed(s).len() > 0 ==> !is_space(trimmed(s)[0]) && !is_space(trimmed(s).last()),
{
    let from = lemma_trim_start_cut(s);
    let rest = trim_start(s);
    let len = lemma_trim_end_cut(rest);
    let to = from + len;
    assert(trimmed(s) =~= s.subrange(from, to));
    assert forall|i: int| to <= i < s.len() implies is_space(#[trigger] s[i]) by {
        assert(rest[i - from] == s[i]);
    }
    if trimmed(s).len() > 0 {
        assert(trimmed(s)[0] == rest[0]);
    }
}

proof fn lemma_trim_start_cut(s: Seq<char>) -> (from: int)
    ensures
        0 <= from <= s.len(),
        trim_start(s) == s.skip(from),
        forall|i: int| 0 <= i < from ==> is_space(#[trigger] s[i]),
        trim_start(s).len() > 0 ==> !is_space(trim_start(s)[0]),
    decreases s.len(),
{
    if s.len() > 0 && is_space(s[0]) {
        let rest = s.drop_first();
        let inner = lemma_trim_start_cut(rest);
        assert(rest.skip(inner) =~= s.skip(inner + 1));
        assert forall|i: int| 0 <= i < inner + 1 implies is_space(#[trigger] s[i]) by {
            if i > 0 {
                assert(rest[i - 1] == s[i]);
            }
        }
        inner + 1
    } else {
        assert(s.skip(0) =~= s);
        0
    }
}

proof fn lemma_trim_end_cut(s: Seq<char>) -> (len: int)
    ensures
        0 <= len <= s.len(),
        trim_end(s) == s.take(len),
        forall|i: int| len <= i < s.len() ==> is_space(#[trigger] s[i]),
        trim_end(s).len() > 0 ==> !is_space(trim_end(s).last()),
    decreases s.len(),
{
    if s.len() > 0 && is_space(s.last()) {
        let rest = s.drop_last();
        let inner = lemma_trim_end_cut(rest);
        assert(rest.take(inner) =~= s.take(inner));
        assert forall|i: int| inner <= i < s.len() implies is_space(#[trigger] s[i]) by {
            if i < rest.len() {
                assert(rest[i] == s[i]);
            }
        }
        inner
    } else {
        assert(s.take(s.len() as int) =~= s);
        s.len() as int
    }
}

/// The slashes that are taken from the end of a text are all of those that it ends with, and
/// nothing else is taken.
pub proof fn law_trailing_slashes_go(s: Seq<char>)
    ensures
        trim_slashes(s).is_prefix_of(s),
        forall|i: int| trim_slashes(s).len() <= i < s.len() ==> #[trigger] s[i] == '/',
        trim_slashes(s).len() > 0 ==> trim_slashes(s).last() != '/',
    decreases s.len(),
{
    if s.len() > 0 && s.last() == '/' {
        law_trailing_slashes_go(s.drop_last());
        assert forall|i: int| trim_slashes(s).len() <= i < s.len() implies #[trigger] s[i] == '/' by {
            if i < s.len() - 1 {
                assert(s.drop_last()[i] == s[i]);
            }
        }
    }
}

/// Reading the decimal notation of a number gives the number back, with a `+` in front or
/// without.
pub proof fn law_decimal_reads_back(n: nat)
    requires
        n <= u64::MAX,
    ensures
        number(decimal(n)) == Some(n),
        number(seq!['+'] + decimal(n)) == Some(n),
{
    lemma_decimal(n);
    let shown = decimal(n);
    assert(is_digit(shown[0]));
    assert((seq!['+'] + shown).skip(1) =~= shown);
}

proof fn lemma_decimal(n: nat)
    ensures
        all_digits(decimal(n)),
        digits_value(decimal(n)) == n,
    decreases n,
{
    reveal_with_fuel(digits_value, 2);
    if n < 10 {
        assert(seq![digit_char(n)].drop_last() =~= Seq::<char>::empty());
    } else {
        lemma_decimal(n / 10);
        let front = decimal(n / 10);
        let whole = decimal(n);
        assert(whole.drop_last() =~= front);
        assert forall|i: int| 0 <= i < whole.len() implies is_digit(#[trigger] whole[i]) by {
            if i < front.len() {
                assert(is_digit(front[i]));
            }
        }
    }
}

/// Zeros in front of a number do not change it.
pub proof fn law_leading_zeros(s: Seq<char>)
    requires
        all_digits(s),
    ensures
        number(seq!['0'] + s) == number(s),
{
    lemma_leading_zero(s);
    let longer = seq!['0'] + s;
    assert(is_digit(s[0]));
    assert forall|i: int| 0 <= i < longer.len() implies is_digit(#[trigger] longer[i]) by {
        if i > 0 {
            assert(longer[i] == s[i - 1]);
        }
    }
}

proof fn lemma_leading_zero(s: Seq<char>)
    ensures
        digits_value(seq!['0'] + s) == digits_value(s),
    decreases s.len(),
{
    let longer = seq!['0'] + s;
    if s.len() == 0 {
        assert(longer.drop_last() =~= s);
    } else {
        lemma_leading_zero(s.drop_last());
        assert(longer.drop_last() =~= seq!['0'] + s.drop_last());
    }
}

/// A text denotes a number only if it consists of digits behind at most one `+`.
pub proof fn law_number_is_digits(s: Seq<char>)
    ensures
        number(s) is Some ==> s.len() > 0 && ('0' as u32 <= s.last() as u32 <= '9' as u32)
            && forall|i: int|
            0 <= i < s.len() ==> ('0' as u32 <= (#[trigger] s[i]) as u32 <= '9' as u32) || (i == 0
                && s[i] == '+'),
{
    if number(s) is Some {
        let digits = without_plus(s);
        assert(is_digit(digits[digits.len() - 1]));
        assert forall|i: int| 0 <= i < s.len() implies ('0' as u32 <= (
        #[trigger] s[i]) as u32 <= '9' as u32) || (i == 0 && s[i] == '+') by {
            if s[0] == '+' && i > 0 {
                assert(digits[i - 1] == s[i]);
            } else if s[0] != '+' {
                assert(digits[i] == s[i]);
            }
        }
    }
}

/// The upper case of a character: a lower-case ASCII letter moves to its capital, all else stays.
pub proof fn lemma_upper(c: char)
    ensures
        upper(c) as u32 == (if 'a' as u32 <= c as u32 <= 'z' as u32 {
            c as u32 - 32
        } else {
            c as u32 as int
        }),
{
}

/// A character is its code.
pub proof fn lemma_code_tells(c: char, d: char)
    ensures
        c as u32 == d as u32 <==> c == d,
{
}

/// Two texts are the same but for case exactly when they have the same length and each pair of
/// characters is equal or one ASCII letter in two cases.
pub proof fn law_case_is_ignored_letter_by_letter(a: Seq<char>, b: Seq<char>)
    ensures
        same_ignoring_case(a, b) <==> a.len() == b.len() && forall|i: int|
            0 <= i < a.len() ==> {
                ||| #[trigger] a[i] == b[i]
                ||| 'a' as u32 <= a[i] as u32 <= 'z' as u32 && b[i] as u32 == a[i] as u32 - 32
                ||| 'a' as u32 <= b[i] as u32 <= 'z' as u32 && a[i] as u32 == b[i] as u32 - 32
            },
{
    let (x, y) = (uppercase(a), uppercase(b));
    if same_ignoring_case(a, b) {
        assert(x.len() == a.len() && y.len() == b.len());
        assert forall|i: int| 0 <= i < a.len() implies {
            ||| #[trigger] a[i] == b[i]
            ||| 'a' as u32 <= a[i] as u32 <= 'z' as u32 && b[i] as u32 == a[i] as u32 - 32
            ||| 'a' as u32 <= b[i] as u32 <= 'z' as u32 && a[i] as u32 == b[i] as u32 - 32
        } by {
            assert(x[i] == y[i]);
            lemma_upper(a[i]);
            lemma_upper(b[i]);
            lemma_code_tells(a[i], b[i]);
        }
    } else if a.len() == b.len() && forall|i: int|
        0 <= i < a.len() ==> {
            ||| #[trigger] a[i] == b[i]
            ||| 'a' as u32 <= a[i] as u32 <= 'z' as u32 && b[i] as u32 == a[i] as u32 - 32
            ||| 'a' as u32 <= b[i] as u32 <= 'z' as u32 && a[i] as u32 == b[i] as u32 - 32
        } {
        assert forall|i: int| 0 <= i < a.len() implies x[i] == y[i] by {
            let (c, d) = (a[i], b[i]);
            assert(upper(c) == upper(d));
        }
        assert(x =~= y);
    }
}

/// White space is what Unicode calls so: these code points, and no other.
pub proof fn law_white_space(c: char)
    ensures
        is_space(c) <==> seq![
            0x9u32,
            0xa,
            0xb,
            0xc,
            0xd,
            0x20,
            0x85,
            0xa0,
            0x1680,
            0x2000,
            0x2001,
            0x2002,
            0x2003,
            0x2004,
            0x2005,
            0x2006,
            0x2007,
            0x2008,
            0x2009,
            0x200a,
            0x2028,
            0x2029,
            0x202f,
            0x205f,
            0x3000,
        ].contains(c as u32),
{
    let codes = seq![
        0x9u32,
        0xa,
        0xb,
        0xc,
        0xd,
        0x20,
        0x85,
        0xa0,
        0x1680,
        0x2000,
        0x2001,
        0x2002,
        0x2003,
        0x2004,
        0x2005,
        0x2006,
        0x2007,
        0x2008,
        0x2009,
        0x200a,
        0x2028,
        0x2029,
        0x202f,
        0x205f,
        0x3000,
    ];
    let n = c as u32;
    let at: int = if 0x9 <= n <= 0xd {
        n - 0x9
    } else if n == 0x20 {
        5
    } else if n == 0x85 {
        6
    } else if n == 0xa0 {
        7
    } else if n == 0x1680 {
        8
    } else if 0x2000 <= n <= 0x200a {
        9 + n - 0x2000
    } else if n == 0x2028 {
        20
    } else if n == 0x2029 {
        21
    } else if n == 0x202f {
        22
    } else if n == 0x205f {
        23
    } else {
        24
    };
    if is_space(c) {
        assert(codes[at] == n);
    }
}

/// The parts of a joined text stand in order with one separator between each two of them.
pub proof fn law_separator_stands_between_parts(
    parts: Seq<Seq<char>>,
    part: Seq<char>,
    sep: Seq<char>,
)
    ensures
        join(Seq::empty(), sep) == Seq::<char>::empty(),
        join(seq![part], sep) == part,
        parts.len() > 0 ==> join(parts.push(part), sep) == join(parts, sep) + sep + part,
{
    assert(parts.push(part).drop_last() =~= parts);
}

/// What is not blank stays, in order and trimmed; what is blank goes.
pub proof fn law_blank_parts_go(parts: Seq<Seq<char>>, part: Seq<char>)
    ensures
        non_blank(Seq::empty()) == Seq::<Seq<char>>::empty(),
        trimmed(part).len() == 0 ==> non_blank(parts.push(part)) == non_blank(parts),
        trimmed(part).len() > 0 ==> non_blank(parts.push(part)) == non_blank(parts).push(
            trimmed(part),
        ),
{
    assert(parts.push(part).drop_last() =~= parts);
}

/// What is wrong with a text that is no number, read from left to right behind one leading `+`:
/// it is empty, or a character that is not a digit comes up, or a number does that is too large,
/// whichever is first.
pub proof fn law_first_fault_counts(s: Seq<char>, k: int)
    ensures
        ({
            let digits = without_plus(s);
            let clean = 0 <= k <= digits.len() && forall|i: int|
                0 <= i < k ==> is_digit(#[trigger] digits[i]);
            &&& number_fault(s) is Empty <==> s.len() == 0
            &&& s.len() > 0 && digits.len() == 0 ==> number_fault(s) is InvalidDigit
            &&& clean && k < digits.len() && !is_digit(digits[k])
                && digits_value(digits.take(k)) <= u64::MAX ==> number_fault(s) is InvalidDigit
            &&& clean && k > 0 && digits_value(digits.take(k)) > u64::MAX ==> number_fault(
                s,
            ) is TooLarge
        }),
{
    let digits = without_plus(s);
    let clean = 0 <= k <= digits.len() && forall|i: int|
        0 <= i < k ==> is_digit(#[trigger] digits[i]);
    if clean && k > 0 && digits_value(digits.take(k)) > u64::MAX {
        assert forall|i: int| 0 <= i < k implies is_digit(#[trigger] digits.take(k)[i]) by {
            assert(digits.take(k)[i] == digits[i]);
        }
        assert(overflows_at(digits, k));
    }
    if clean && k < digits.len() && !is_digit(digits[k]) && digits_value(digits.take(k))
        <= u64::MAX {
        assert forall|j: int| !overflows_at(digits, j) by {
            if overflows_at(digits, j) {
                if j > k {
                    assert(is_digit(digits.take(j)[k]));
                } else {
                    let whole = digits.take(k);
                    assert forall|i: int| 0 <= i < whole.len() implies is_digit(
                        #[trigger] whole[i],
                    ) by {
                        assert(whole[i] == digits[i]);
                    }
                    lemma_digits_value_grows(whole, j);
                    assert(whole.take(j) =~= digits.take(j));
                }
            }
        }
    }
}

/// The text of each fault.
pub proof fn law_fault_texts()
    ensures
        fault_text(NumberFault::Empty) == "cannot parse integer from empty string"@,
        fault_text(NumberFault::InvalidDigit) == "invalid digit found in string"@,
        fault_text(NumberFault::TooLarge) == "number too large to fit in target type"@,
{
}

} // verus!
